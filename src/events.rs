use vstd::prelude::*;
use vstd::utf8::{decode_utf8, valid_utf8};
use crate::error::HyprError;
use crate::text::{chars_of, chars_views, slice_chars, split_chars, split_on, string_of, utf8_string};

verus! {

// Decoding.

/// A `>>` starts at position `j` of `s`.
pub open spec fn arrow_at(s: Seq<char>, j: int) -> bool {
    s[j] == '>' && s[j + 1] == '>'
}

/// The first `>>` in `s` at or after `from`.
pub open spec fn find_arrow(s: Seq<char>, from: int) -> Option<int>
    decreases s.len() - from,
{
    if from < 0 || from + 1 >= s.len() {
        None
    } else if arrow_at(s, from) {
        Some(from)
    } else {
        find_arrow(s, from + 1)
    }
}

/// The name and arguments of one record `name>>arg,arg,...`: the name is
/// the text before the first `>>`, the arguments the text between it and the
/// next `>>`, split at commas.
pub open spec fn event_of(line: Seq<char>) -> (Seq<char>, Seq<Seq<char>>) {
    match find_arrow(line, 0) {
        None => (line, seq![]),
        Some(p) => {
            let end = match find_arrow(line, p + 2) {
                Some(q) => q,
                None => line.len() as int,
            };
            (line.take(p), split_on(line.subrange(p + 2, end), ','))
        },
    }
}

/// The records of the lines, in order; empty lines hold none.
pub open spec fn events_of(lines: Seq<Seq<char>>) -> Seq<(Seq<char>, Seq<Seq<char>>)>
    decreases lines.len(),
{
    if lines.len() == 0 {
        seq![]
    } else {
        let rest = events_of(lines.drop_last());
        if lines.last().len() == 0 {
            rest
        } else {
            rest.push(event_of(lines.last()))
        }
    }
}

/// The records of one read from the event socket, or `None` where the bytes
/// are not UTF-8.
pub open spec fn decoded_events(b: Seq<u8>) -> Option<Seq<(Seq<char>, Seq<Seq<char>>)>> {
    if valid_utf8(b) {
        Some(events_of(split_on(decode_utf8(b), '\n')))
    } else {
        None
    }
}

pub open spec fn event_view(e: (String, Vec<String>)) -> (Seq<char>, Seq<Seq<char>>) {
    (e.0@, e.1@.map_values(|s: String| s@))
}

pub open spec fn events_view(v: Seq<(String, Vec<String>)>) -> Seq<(Seq<char>, Seq<Seq<char>>)> {
    v.map_values(|e: (String, Vec<String>)| event_view(e))
}

proof fn lemma_find_arrow_at(s: Seq<char>, from: int, i: int)
    requires
        0 <= from <= i,
        forall|j: int| from <= j < i ==> !#[trigger] arrow_at(s, j),
        i + 1 >= s.len() || arrow_at(s, i),
    ensures
        find_arrow(s, from) == if i + 1 >= s.len() {
            None
        } else {
            Some(i)
        },
    decreases i - from,
{
    if from < i {
        lemma_find_arrow_at(s, from + 1, i);
    }
}

fn find_arrow_exec(s: &Vec<char>, from: usize) -> (r: Option<usize>)
    ensures
        match r {
            Some(i) => find_arrow(s@, from as int) == Some(i as int) && from <= i && i + 1 < s@.len(),
            None => find_arrow(s@, from as int) is None,
        },
{
    let mut i: usize = from;
    while i < s.len() && i + 1 < s.len() && !(s[i] == '>' && s[i + 1] == '>')
        invariant
            from <= i,
            forall|j: int| from <= j < i ==> !#[trigger] arrow_at(s@, j),
        decreases s@.len() - i,
    {
        i = i + 1;
    }
    proof {
        lemma_find_arrow_at(s@, from as int, i as int);
    }
    if i < s.len() && i + 1 < s.len() {
        Some(i)
    } else {
        None
    }
}

fn decode_line(line: &Vec<char>) -> (r: (String, Vec<String>))
    ensures
        event_view(r) == event_of(line@),
{
    match find_arrow_exec(line, 0) {
        None => {
            let v: Vec<String> = Vec::new();
            assert(v@.map_values(|s: String| s@) =~= Seq::<Seq<char>>::empty());
            (string_of(line.as_slice()), v)
        },
        Some(p) => {
            let n = line.len();
            assert(p + 2 <= n);
            let end = match find_arrow_exec(line, p + 2) {
                Some(q) => q,
                None => line.len(),
            };
            proof {
                if end < line@.len() {
                    assert(p + 2 <= end);
                }
            }
            let name = slice_chars(line, 0, p);
            let body = slice_chars(line, p + 2, end);
            let parts = split_chars(&body, ',');
            let mut args: Vec<String> = Vec::new();
            let mut i: usize = 0;
            while i < parts.len()
                invariant
                    0 <= i <= parts@.len(),
                    args@.len() == i,
                    forall|j: int| 0 <= j < i ==> (#[trigger] args@[j])@ == parts@[j]@,
                decreases parts@.len() - i,
            {
                args.push(string_of(parts[i].as_slice()));
                i = i + 1;
            }
            assert(name@ =~= line@.take(p as int));
            assert(args@.map_values(|s: String| s@) =~= chars_views(parts@));
            (string_of(name.as_slice()), args)
        },
    }
}

/// Decodes the records of one read from the event socket, as
/// `decoded_events` says; bytes that are not UTF-8 are an error.
pub fn decode_events(buf: Vec<u8>) -> (r: Result<Vec<(String, Vec<String>)>, HyprError>)
    ensures
        match r {
            Ok(v) => decoded_events(buf@) == Some(events_view(v@)),
            Err(e) => decoded_events(buf@) is None && e == HyprError::InvalidUtf8,
        },
{
    let ghost b = buf@;
    let text = match utf8_string(buf) {
        Some(t) => t,
        None => {
            return Err(HyprError::InvalidUtf8);
        },
    };
    let cs = chars_of(text.as_str());
    let lines = split_chars(&cs, '\n');
    let ghost lv = split_on(decode_utf8(b), '\n');
    let mut out: Vec<(String, Vec<String>)> = Vec::new();
    let mut i: usize = 0;
    assert(lv.take(0) =~= Seq::<Seq<char>>::empty());
    assert(events_view(out@) =~= Seq::<(Seq<char>, Seq<Seq<char>>)>::empty());
    while i < lines.len()
        invariant
            0 <= i <= lines@.len(),
            chars_views(lines@) == lv,
            events_view(out@) == events_of(lv.take(i as int)),
        decreases lines@.len() - i,
    {
        assert(lines@[i as int]@ == lv[i as int]);
        assert(lv.take(i + 1).drop_last() =~= lv.take(i as int));
        assert(lv.take(i + 1).last() == lv[i as int]);
        if lines[i].len() > 0 {
            let e = decode_line(&lines[i]);
            let ghost before = out@;
            out.push(e);
            assert(events_view(out@) =~= events_view(before).push(event_view(e)));
        }
        i = i + 1;
    }
    assert(lv.take(i as int) =~= lv);
    Ok(out)
}

// Decisions of the watch loop.

/// The kind of resource that is watched.
#[derive(Debug, Clone, Copy, PartialEq, Eq)]
pub enum Mode {
    Monitors,
    Workspaces,
    Clients,
}

/// The event names after which a mode's document is emitted again.
pub open spec fn keywords(mode: Mode) -> Seq<Seq<char>> {
    match mode {
        Mode::Monitors => seq!["focusedmon"@, "monitorremoved"@, "monitoradded"@],
        Mode::Workspaces => seq![
            "focusedmon"@,
            "monitorremoved"@,
            "monitoradded"@,
            "workspace"@,
            "createworkspace"@,
            "destroyworkspace"@,
            "moveworkspace"@,
            "openwindow"@,
            "closewindow"@,
            "movewindow"@,
            "activespecial"@,
        ],
        Mode::Clients => seq![
            "openwindow"@,
            "closewindow"@,
            "movewindow"@,
            "changefloatingmode"@,
            "fullscreen"@,
            "windowtitle"@,
            "activewindowv2"@,
        ],
    }
}

impl Mode {
    /// The event names after which this mode's document is emitted again.
    pub fn keywords(&self) -> (r: Vec<&'static str>)
        ensures
            r@.map_values(|k: &str| k@) == keywords(*self),
    {
        let r = match self {
            Mode::Monitors => vec!["focusedmon", "monitorremoved", "monitoradded"],
            Mode::Workspaces => vec![
                "focusedmon",
                "monitorremoved",
                "monitoradded",
                "workspace",
                "createworkspace",
                "destroyworkspace",
                "moveworkspace",
                "openwindow",
                "closewindow",
                "movewindow",
                "activespecial",
            ],
            Mode::Clients => vec![
                "openwindow",
                "closewindow",
                "movewindow",
                "changefloatingmode",
                "fullscreen",
                "windowtitle",
                "activewindowv2",
            ],
        };
        assert(r@.map_values(|k: &str| k@) =~= keywords(*self));
        r
    }

    /// Whether an event of this name asks for the document to be emitted again.
    pub fn is_keyword(&self, name: &String) -> (r: bool)
        ensures
            r == keywords(*self).contains(name@),
    {
        let ks = self.keywords();
        let ghost kv = keywords(*self);
        let mut i: usize = 0;
        while i < ks.len()
            invariant
                0 <= i <= ks@.len(),
                ks@.map_values(|k: &str| k@) == kv,
                kv == keywords(*self),
                forall|j: int| 0 <= j < i ==> kv[j] != name@,
            decreases ks@.len() - i,
        {
            assert(kv[i as int] == ks@[i as int]@);
            if *name == ks[i].to_owned() {
                assert(kv[i as int] == name@);
                assert(kv.contains(name@));
                return true;
            }
            i = i + 1;
        }
        assert(!kv.contains(name@));
        false
    }
}

/// What the watch loop does after one read from the event socket.
#[derive(Debug, Clone, Copy, PartialEq, Eq)]
pub enum Step {
    /// Emit the document once more, then read again.
    Emit,
    /// Read again without emitting: no record of the batch was relevant.
    Idle,
    /// The read failed: report it and read again.
    ReadFailed,
    /// The socket has closed: the run ends as a failure.
    Closed,
}

/// Whether some record of the batch names an event of the mode.
pub open spec fn batch_triggers(mode: Mode, batch: Seq<(Seq<char>, Seq<Seq<char>>)>) -> bool {
    exists|i: int| 0 <= i < batch.len() && keywords(mode).contains(#[trigger] batch[i].0)
}

/// The step after a read that gave `batch` (`None`: the read failed).
pub open spec fn step_after(mode: Mode, batch: Option<Seq<(Seq<char>, Seq<Seq<char>>)>>) -> Step {
    match batch {
        None => Step::ReadFailed,
        Some(b) => if b.len() == 0 {
            Step::Closed
        } else if batch_triggers(mode, b) {
            Step::Emit
        } else {
            Step::Idle
        },
    }
}

/// Decides what the watch loop does after one read: a read of nothing means
/// the socket closed; otherwise the document is emitted once when any record
/// of the batch names an event of the mode.
pub fn next_step(mode: Mode, batch: Option<&Vec<(String, Vec<String>)>>) -> (r: Step)
    ensures
        r == step_after(
            mode,
            match batch {
                Some(b) => Some(events_view(b@)),
                None => None,
            },
        ),
{
    let b = match batch {
        None => {
            return Step::ReadFailed;
        },
        Some(b) => b,
    };
    let ghost bv = events_view(b@);
    if b.len() == 0 {
        return Step::Closed;
    }
    let mut i: usize = 0;
    while i < b.len()
        invariant
            0 <= i <= b@.len(),
            bv == events_view(b@),
            batch == Some(b),
            forall|j: int| 0 <= j < i ==> !keywords(mode).contains(#[trigger] bv[j].0),
        decreases b@.len() - i,
    {
        assert(bv[i as int].0 == b@[i as int].0@);
        if mode.is_keyword(&b[i].0) {
            assert(keywords(mode).contains(bv[i as int].0));
            assert(batch_triggers(mode, bv));
            return Step::Emit;
        }
        i = i + 1;
    }
    Step::Idle
}

/// A read of nothing always ends the loop, whatever the mode; a batch that
/// holds records never does, whether or not one of them is relevant.
pub proof fn lemma_closed_only_on_empty_read(
    mode: Mode,
    batch: Seq<(Seq<char>, Seq<Seq<char>>)>,
)
    ensures
        (step_after(mode, Some(batch)) == Step::Closed) <==> batch.len() == 0,
        batch.len() > 0 && !batch_triggers(mode, batch) ==> step_after(mode, Some(batch))
            == Step::Idle,
{
}

} // verus!
