use vstd::prelude::*;
use crate::error::HyprError;
use crate::text::{
    chars_of, chars_views, lemma_split_on_nonempty, natural_of, parse_natural, slice_chars,
    split_chars, split_on, starts_with, starts_with_chars, string_of, trim, trim_chars,
};

verus! {

/// A workspace declared in the compositor's configuration.
///
/// Exactly one of `id` and `name` is set, by the first attribute of the
/// declaration.
#[derive(Debug, PartialEq, Eq)]
pub struct WorkspaceInfoConfig {
    pub id: Option<i64>,
    pub name: Option<String>,
    pub monitor: Option<String>,
}

/// The value of a workspace declaration.
pub struct WorkspaceDecl {
    pub id: Option<i64>,
    pub name: Option<Seq<char>>,
    pub monitor: Option<Seq<char>>,
}

impl WorkspaceDecl {
    /// Exactly one of the id and the name is set.
    pub open spec fn well_formed(self) -> bool {
        (self.id is Some) != (self.name is Some)
    }
}

pub open spec fn opt_chars(o: Option<String>) -> Option<Seq<char>> {
    match o {
        Some(s) => Some(s@),
        None => None,
    }
}

impl WorkspaceInfoConfig {
    pub open spec fn view(self) -> WorkspaceDecl {
        WorkspaceDecl { id: self.id, name: opt_chars(self.name), monitor: opt_chars(self.monitor) }
    }
}

pub open spec fn decls_view(v: Seq<WorkspaceInfoConfig>) -> Seq<WorkspaceDecl> {
    v.map_values(|c: WorkspaceInfoConfig| c.view())
}

/// Whether a trimmed line of the configuration declares a workspace; longer
/// keywords such as `workspace_swipe` do not.
pub open spec fn is_declaration(t: Seq<char>) -> bool {
    starts_with(t, "workspace "@) || starts_with(t, "workspace="@)
}

/// The position of the first `c` in `s`.
pub open spec fn find_char(s: Seq<char>, c: char) -> Option<int>
    decreases s.len(),
{
    if s.len() == 0 {
        None
    } else if s[0] == c {
        Some(0)
    } else {
        match find_char(s.drop_first(), c) {
            Some(i) => Some(i + 1),
            None => None,
        }
    }
}

/// The monitor that the attributes name; the last `monitor:` attribute wins.
pub open spec fn monitor_of(attrs: Seq<Seq<char>>) -> Option<Seq<char>>
    decreases attrs.len(),
{
    if attrs.len() == 0 {
        None
    } else {
        let a = trim(attrs.last());
        if starts_with(a, "monitor:"@) {
            Some(a.skip("monitor:"@.len() as int))
        } else {
            monitor_of(attrs.drop_last())
        }
    }
}

/// The declaration that a trimmed declaration line holds: the text after the
/// first `=` is a list of attributes separated by commas, the first of which
/// is `name:NAME` or a non-negative integer id.
pub open spec fn parse_decl(t: Seq<char>) -> Option<WorkspaceDecl> {
    match find_char(t, '=') {
        None => None,
        Some(e) => {
            let attrs = split_on(t.skip(e + 1), ',');
            let first = trim(attrs[0]);
            let monitor = monitor_of(attrs.skip(1));
            if starts_with(first, "name:"@) {
                Some(
                    WorkspaceDecl {
                        id: None,
                        name: Some(first.skip("name:"@.len() as int)),
                        monitor,
                    },
                )
            } else {
                match natural_of(first) {
                    Some(v) => Some(WorkspaceDecl { id: Some(v as i64), name: None, monitor }),
                    None => None,
                }
            }
        },
    }
}

/// The declarations of the lines, in order, or the first declaration line
/// that cannot be read.
pub open spec fn parse_lines(lines: Seq<Seq<char>>) -> Result<Seq<WorkspaceDecl>, Seq<char>>
    decreases lines.len(),
{
    if lines.len() == 0 {
        Ok(Seq::empty())
    } else {
        match parse_lines(lines.drop_last()) {
            Err(l) => Err(l),
            Ok(ds) => {
                let t = trim(lines.last());
                if !is_declaration(t) {
                    Ok(ds)
                } else {
                    match parse_decl(t) {
                        Some(d) => Ok(ds.push(d)),
                        None => Err(lines.last()),
                    }
                }
            },
        }
    }
}

/// The workspace declarations of a configuration text.
pub open spec fn config_decls(text: Seq<char>) -> Result<Seq<WorkspaceDecl>, Seq<char>> {
    parse_lines(split_on(text, '\n'))
}

proof fn lemma_find_char_at(s: Seq<char>, c: char, i: int)
    requires
        0 <= i <= s.len(),
        forall|j: int| 0 <= j < i ==> s[j] != c,
    ensures
        i < s.len() && s[i] == c ==> find_char(s, c) == Some(i),
        i == s.len() ==> find_char(s, c) is None,
    decreases i,
{
    if i > 0 {
        lemma_find_char_at(s.drop_first(), c, i - 1);
    }
}

proof fn lemma_error_stays(lines: Seq<Seq<char>>, k: int)
    requires
        0 <= k <= lines.len(),
        parse_lines(lines.take(k)) is Err,
    ensures
        parse_lines(lines) == parse_lines(lines.take(k)),
    decreases lines.len(),
{
    if k < lines.len() {
        assert(lines.drop_last().take(k) =~= lines.take(k));
        lemma_error_stays(lines.drop_last(), k);
    } else {
        assert(lines.take(k) =~= lines);
    }
}

fn find_char_exec(s: &Vec<char>, c: char) -> (r: Option<usize>)
    ensures
        match r {
            Some(i) => i < s@.len() && find_char(s@, c) == Some(i as int),
            None => find_char(s@, c) is None,
        },
{
    let mut i: usize = 0;
    while i < s.len()
        invariant
            0 <= i <= s@.len(),
            forall|j: int| 0 <= j < i ==> s@[j] != c,
        decreases s@.len() - i,
    {
        if s[i] == c {
            proof {
                lemma_find_char_at(s@, c, i as int);
            }
            return Some(i);
        }
        i = i + 1;
    }
    proof {
        lemma_find_char_at(s@, c, i as int);
    }
    None
}

/// Reads one trimmed declaration line, as `parse_decl` says.
fn parse_declaration(t: &Vec<char>) -> (r: Option<WorkspaceInfoConfig>)
    ensures
        match r {
            Some(d) => parse_decl(t@) == Some(d.view()) && d.view().well_formed(),
            None => parse_decl(t@) is None,
        },
{
    let e: usize = match find_char_exec(t, '=') {
        Some(e) => e,
        None => {
            return None;
        },
    };
    let tl = t.len();
    let rest = slice_chars(t, e + 1, tl);
    assert(rest@ =~= t@.skip(e + 1));
    let attrs = split_chars(&rest, ',');
    let ghost av = split_on(rest@, ',');
    proof {
        lemma_split_on_nonempty(rest@, ',');
    }
    assert(attrs@[0]@ == av[0]);
    let first = trim_chars(&attrs[0]);
    let mut monitor: Option<String> = None;
    let mut j: usize = 1;
    assert(av.skip(1).take(0) =~= Seq::<Seq<char>>::empty());
    while j < attrs.len()
        invariant
            1 <= j <= attrs@.len(),
            chars_views(attrs@) == av,
            av == split_on(rest@, ','),
            rest@ == t@.skip(e + 1),
            find_char(t@, '=') == Some(e as int),
            first@ == trim(av[0]),
            opt_chars(monitor) == monitor_of(av.skip(1).take(j - 1)),
        decreases attrs@.len() - j,
    {
        assert(attrs@[j as int]@ == av[j as int]);
        let a = trim_chars(&attrs[j]);
        assert(av.skip(1).take(j as int).drop_last() =~= av.skip(1).take(j - 1));
        assert(av.skip(1).take(j as int).last() == av[j as int]);
        if starts_with_chars(&a, "monitor:") {
            let skip = chars_of("monitor:").len();
            let m = slice_chars(&a, skip, a.len());
            assert(m@ =~= a@.skip("monitor:"@.len() as int));
            monitor = Some(string_of(m.as_slice()));
        }
        j = j + 1;
    }
    assert(av.skip(1).take(j - 1) =~= av.skip(1));
    if starts_with_chars(&first, "name:") {
        let skip = chars_of("name:").len();
        let n = slice_chars(&first, skip, first.len());
        assert(n@ =~= first@.skip("name:"@.len() as int));
        Some(WorkspaceInfoConfig { id: None, name: Some(string_of(n.as_slice())), monitor })
    } else {
        match parse_natural(&first) {
            Some(v) => Some(WorkspaceInfoConfig { id: Some(v), name: None, monitor }),
            None => None,
        }
    }
}

/// Reads the workspace declarations of a configuration text, in file order.
///
/// A line declares a workspace when its trimmed text starts with
/// `workspace ` or `workspace=`; one whose first attribute is neither
/// `name:NAME` nor a non-negative integer fails the whole text.
pub fn parse_config(text: &str) -> (r: Result<Vec<WorkspaceInfoConfig>, HyprError>)
    ensures
        match r {
            Ok(v) => config_decls(text@) == Ok::<Seq<WorkspaceDecl>, Seq<char>>(decls_view(v@))
                && forall|i: int| 0 <= i < v@.len() ==> (#[trigger] v@[i]).view().well_formed(),
            Err(e) => match e {
                HyprError::ConfigLine(l) => config_decls(text@) == Err::<Seq<WorkspaceDecl>, Seq<char>>(l@),
                _ => false,
            },
        },
{
    let cs = chars_of(text);
    let lines = split_chars(&cs, '\n');
    let ghost lv = split_on(text@, '\n');
    let mut out: Vec<WorkspaceInfoConfig> = Vec::new();
    let mut i: usize = 0;
    assert(lv.take(0) =~= Seq::<Seq<char>>::empty());
    assert(decls_view(out@) =~= Seq::<WorkspaceDecl>::empty());
    while i < lines.len()
        invariant
            0 <= i <= lines@.len(),
            chars_views(lines@) == lv,
            lv == split_on(text@, '\n'),
            parse_lines(lv.take(i as int)) == Ok::<Seq<WorkspaceDecl>, Seq<char>>(decls_view(out@)),
            forall|j: int| 0 <= j < out@.len() ==> (#[trigger] out@[j]).view().well_formed(),
        decreases lines@.len() - i,
    {
        assert(lines@[i as int]@ == lv[i as int]);
        assert(lv.take(i + 1).drop_last() =~= lv.take(i as int));
        assert(lv.take(i + 1).last() == lv[i as int]);
        let t = trim_chars(&lines[i]);
        if starts_with_chars(&t, "workspace ") || starts_with_chars(&t, "workspace=") {
            match parse_declaration(&t) {
                Some(d) => {
                    let ghost before = out@;
                    out.push(d);
                    assert(decls_view(out@) =~= decls_view(before).push(d.view()));
                },
                None => {
                    assert(is_declaration(t@));
                    assert(parse_lines(lv.take(i + 1)) == Err::<Seq<WorkspaceDecl>, Seq<char>>(lv[i as int]));
                    proof {
                        lemma_error_stays(lv, i + 1);
                    }
                    let l = string_of(lines[i].as_slice());
                    assert(l@ == lv[i as int]);
                    assert(parse_lines(lv) == Err::<Seq<WorkspaceDecl>, Seq<char>>(l@));
                    assert(config_decls(text@) == Err::<Seq<WorkspaceDecl>, Seq<char>>(l@));
                    return Err(HyprError::ConfigLine(l));
                },
            }
        }
        i = i + 1;
    }
    assert(lv.take(i as int) =~= lv);
    Ok(out)
}

} // verus!
