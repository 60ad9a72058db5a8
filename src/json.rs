use vstd::prelude::*;

verus! {

/// A JSON number: an integer, or the decimal text of any other number.
#[derive(Debug)]
pub enum JsonNumber {
    PosInt(u64),
    NegInt(i64),
    Other(String),
}

/// A JSON document, with the members of an object kept in order.
#[derive(Debug)]
pub enum Json {
    Null,
    Bool(bool),
    Number(JsonNumber),
    Str(String),
    Array(Vec<Json>),
    Object(Vec<(String, Json)>),
}

/// The mathematical value of a JSON document.
pub enum JsonView {
    Null,
    Bool(bool),
    Int(int),
    Real(Seq<char>),
    Str(Seq<char>),
    Array(Seq<JsonView>),
    Object(Seq<(Seq<char>, JsonView)>),
}

/// The value of the first member named `key`.
pub open spec fn lookup(fs: Seq<(Seq<char>, JsonView)>, key: Seq<char>) -> Option<JsonView>
    decreases fs.len(),
{
    if fs.len() == 0 {
        None
    } else if fs[0].0 == key {
        Some(fs[0].1)
    } else {
        lookup(fs.drop_first(), key)
    }
}

/// The members after setting `key` to `val`: the first member of that name
/// takes the new value, or a new member is added at the end.
pub open spec fn put(fs: Seq<(Seq<char>, JsonView)>, key: Seq<char>, val: JsonView) -> Seq<
    (Seq<char>, JsonView),
>
    decreases fs.len(),
{
    if fs.len() == 0 {
        seq![(key, val)]
    } else if fs[0].0 == key {
        fs.update(0, (key, val))
    } else {
        seq![fs[0]] + put(fs.drop_first(), key, val)
    }
}

impl JsonView {
    pub open spec fn field(self, key: Seq<char>) -> Option<JsonView> {
        match self {
            JsonView::Object(fs) => lookup(fs, key),
            _ => None,
        }
    }

    pub open spec fn as_i64(self) -> Option<i64> {
        match self {
            JsonView::Int(i) => if i64::MIN <= i <= i64::MAX {
                Some(i as i64)
            } else {
                None
            },
            _ => None,
        }
    }

    pub open spec fn as_u64(self) -> Option<u64> {
        match self {
            JsonView::Int(i) => if 0 <= i <= u64::MAX {
                Some(i as u64)
            } else {
                None
            },
            _ => None,
        }
    }

    pub open spec fn as_str(self) -> Option<Seq<char>> {
        match self {
            JsonView::Str(s) => Some(s),
            _ => None,
        }
    }

    pub open spec fn as_bool(self) -> Option<bool> {
        match self {
            JsonView::Bool(b) => Some(b),
            _ => None,
        }
    }

    /// The integer member `key`, where it is one that fits in an `i64`.
    pub open spec fn i64_at(self, key: Seq<char>) -> Option<i64> {
        match self.field(key) {
            Some(v) => v.as_i64(),
            None => None,
        }
    }

    pub open spec fn u64_at(self, key: Seq<char>) -> Option<u64> {
        match self.field(key) {
            Some(v) => v.as_u64(),
            None => None,
        }
    }

    pub open spec fn str_at(self, key: Seq<char>) -> Option<Seq<char>> {
        match self.field(key) {
            Some(v) => v.as_str(),
            None => None,
        }
    }

    pub open spec fn bool_at(self, key: Seq<char>) -> Option<bool> {
        match self.field(key) {
            Some(v) => v.as_bool(),
            None => None,
        }
    }
}

impl JsonNumber {
    pub open spec fn view(self) -> JsonView {
        match self {
            JsonNumber::PosInt(u) => JsonView::Int(u as int),
            JsonNumber::NegInt(i) => JsonView::Int(i as int),
            JsonNumber::Other(s) => JsonView::Real(s@),
        }
    }
}

pub open spec fn items_view(items: Seq<Json>) -> Seq<JsonView> {
    Seq::new(items.len(), |i: int| items[i].view())
}

pub open spec fn fields_view(fs: Seq<(String, Json)>) -> Seq<(Seq<char>, JsonView)> {
    Seq::new(fs.len(), |i: int| (fs[i].0@, fs[i].1.view()))
}

impl Json {
    pub open spec fn view(self) -> JsonView
        decreases self,
    {
        match self {
            Json::Null => JsonView::Null,
            Json::Bool(b) => JsonView::Bool(b),
            Json::Number(n) => n.view(),
            Json::Str(s) => JsonView::Str(s@),
            Json::Array(items) => JsonView::Array(
                Seq::new(
                    items@.len(),
                    |i: int|
                        if 0 <= i < items@.len() {
                            items@[i].view()
                        } else {
                            JsonView::Null
                        },
                ),
            ),
            Json::Object(fs) => JsonView::Object(
                Seq::new(
                    fs@.len(),
                    |i: int|
                        if 0 <= i < fs@.len() {
                            (fs@[i].0@, fs@[i].1.view())
                        } else {
                            (Seq::empty(), JsonView::Null)
                        },
                ),
            ),
        }
    }

    /// The member `key` of an object; `None` for a missing member or a value
    /// that is not an object.
    pub fn get(&self, key: &str) -> (r: Option<&Json>)
        ensures
            match r {
                Some(v) => self.view().field(key@) == Some(v.view()),
                None => self.view().field(key@) is None,
            },
    {
        match self {
            Json::Object(fs) => {
                proof {
                    lemma_object_view(fs@);
                }
                let ghost fv = fields_view(fs@);
                assert(self.view() == JsonView::Object(fv));
                assert(fv.skip(0) =~= fv);
                let k = key.to_owned();
                let mut i: usize = 0;
                while i < fs.len()
                    invariant
                        0 <= i <= fs@.len(),
                        fv == fields_view(fs@),
                        k@ == key@,
                        lookup(fv, key@) == lookup(fv.skip(i as int), key@),
                        self.view() == JsonView::Object(fv),
                    decreases fs@.len() - i,
                {
                    assert(fv[i as int] == (fs@[i as int].0@, fs@[i as int].1.view()));
                    assert(fv.skip(i as int)[0] == fv[i as int]);
                    if fs[i].0 == k {
                        return Some(&fs[i].1);
                    }
                    assert(fv.skip(i as int).drop_first() =~= fv.skip(i + 1));
                    i = i + 1;
                }
                assert(fv.skip(i as int).len() == 0);
                None
            },
            _ => None,
        }
    }

    pub fn as_i64(&self) -> (r: Option<i64>)
        ensures
            r == self.view().as_i64(),
    {
        match self {
            Json::Number(JsonNumber::PosInt(u)) => {
                if *u <= i64::MAX as u64 {
                    Some(*u as i64)
                } else {
                    None
                }
            },
            Json::Number(JsonNumber::NegInt(i)) => Some(*i),
            _ => None,
        }
    }

    pub fn as_u64(&self) -> (r: Option<u64>)
        ensures
            r == self.view().as_u64(),
    {
        match self {
            Json::Number(JsonNumber::PosInt(u)) => Some(*u),
            Json::Number(JsonNumber::NegInt(i)) => {
                if *i >= 0 {
                    Some(*i as u64)
                } else {
                    None
                }
            },
            _ => None,
        }
    }

    pub fn as_str(&self) -> (r: Option<&String>)
        ensures
            match r {
                Some(s) => self.view().as_str() == Some(s@),
                None => self.view().as_str() is None,
            },
    {
        match self {
            Json::Str(s) => Some(s),
            _ => None,
        }
    }

    pub fn as_bool(&self) -> (r: Option<bool>)
        ensures
            r == self.view().as_bool(),
    {
        match self {
            Json::Bool(b) => Some(*b),
            _ => None,
        }
    }
}

impl Json {
    /// The integer member `key`, where it fits in an `i64`.
    pub fn i64_at(&self, key: &str) -> (r: Option<i64>)
        ensures
            r == self.view().i64_at(key@),
    {
        match self.get(key) {
            Some(v) => v.as_i64(),
            None => None,
        }
    }

    /// The integer member `key`, where it fits in a `u64`.
    pub fn u64_at(&self, key: &str) -> (r: Option<u64>)
        ensures
            r == self.view().u64_at(key@),
    {
        match self.get(key) {
            Some(v) => v.as_u64(),
            None => None,
        }
    }

    /// The string member `key`.
    pub fn str_at(&self, key: &str) -> (r: Option<&String>)
        ensures
            match r {
                Some(s) => self.view().str_at(key@) == Some(s@),
                None => self.view().str_at(key@) is None,
            },
    {
        match self.get(key) {
            Some(v) => v.as_str(),
            None => None,
        }
    }

    /// The boolean member `key`.
    pub fn bool_at(&self, key: &str) -> (r: Option<bool>)
        ensures
            r == self.view().bool_at(key@),
    {
        match self.get(key) {
            Some(v) => v.as_bool(),
            None => None,
        }
    }
}

pub proof fn lemma_object_view(fs: Seq<(String, Json)>)
    ensures
        forall|v: Vec<(String, Json)>|
            v@ == fs ==> #[trigger] Json::Object(v).view() == JsonView::Object(fields_view(fs)),
{
    assert forall|v: Vec<(String, Json)>| v@ == fs implies #[trigger] Json::Object(v).view()
        == JsonView::Object(fields_view(fs)) by {
        if let JsonView::Object(w) = Json::Object(v).view() {
            assert(w =~= fields_view(fs));
        }
    }
}

pub proof fn lemma_array_view(items: Seq<Json>)
    ensures
        forall|v: Vec<Json>|
            v@ == items ==> #[trigger] Json::Array(v).view() == JsonView::Array(items_view(items)),
{
    assert forall|v: Vec<Json>| v@ == items implies #[trigger] Json::Array(v).view()
        == JsonView::Array(items_view(items)) by {
        if let JsonView::Array(w) = Json::Array(v).view() {
            assert(w =~= items_view(items));
        }
    }
}

proof fn lemma_put_at(fs: Seq<(Seq<char>, JsonView)>, key: Seq<char>, val: JsonView, i: int)
    requires
        0 <= i < fs.len(),
        fs[i].0 == key,
        forall|j: int| 0 <= j < i ==> fs[j].0 != key,
    ensures
        put(fs, key, val) == fs.update(i, (key, val)),
    decreases i,
{
    if i > 0 {
        lemma_put_at(fs.drop_first(), key, val, i - 1);
        assert(put(fs, key, val) =~= fs.update(i, (key, val)));
    }
}

proof fn lemma_put_absent(fs: Seq<(Seq<char>, JsonView)>, key: Seq<char>, val: JsonView)
    requires
        forall|j: int| 0 <= j < fs.len() ==> fs[j].0 != key,
    ensures
        put(fs, key, val) == fs.push((key, val)),
    decreases fs.len(),
{
    if fs.len() > 0 {
        lemma_put_absent(fs.drop_first(), key, val);
        assert(put(fs, key, val) =~= fs.push((key, val)));
    }
}

/// Sets the member `key` of an object's members to `val`.
pub fn put_field(fs: &mut Vec<(String, Json)>, key: &str, val: Json)
    ensures
        fields_view(final(fs)@) == put(fields_view(old(fs)@), key@, val.view()),
{
    let ghost fv = fields_view(fs@);
    let k = key.to_owned();
    let mut i: usize = 0;
    while i < fs.len()
        invariant
            0 <= i <= fs@.len(),
            fv == fields_view(fs@),
            fs@ == old(fs)@,
            k@ == key@,
            forall|j: int| 0 <= j < i ==> fv[j].0 != key@,
        decreases fs@.len() - i,
    {
        if fs[i].0 == k {
            proof {
                lemma_put_at(fv, key@, val.view(), i as int);
            }
            let ghost v = val.view();
            fs.set(i, (k, val));
            assert(fields_view(fs@) =~= fv.update(i as int, (key@, v)));
            return;
        }
        i = i + 1;
    }
    proof {
        lemma_put_absent(fv, key@, val.view());
    }
    let ghost v = val.view();
    fs.push((k, val));
    assert(fields_view(fs@) =~= fv.push((key@, v)));
}

/// The document that serde_json reads from the bytes, or `None` where it
/// reports an error.
pub uninterp spec fn json_parse(b: Seq<u8>) -> Option<JsonView>;

#[verifier::external_type_specification]
#[verifier::external_body]
pub struct ExValue(serde_json::Value);

#[verifier::external_type_specification]
#[verifier::external_body]
pub struct ExNumber(serde_json::Number);

/// Relies on serde_json::from_slice: it reads one JSON document from the
/// bytes, or reports why it cannot; the document depends on the bytes alone.
#[verifier::external_body]
pub(crate) fn parse_json(b: &[u8]) -> (r: Result<Json, String>)
    ensures
        r is Ok <==> json_parse(b@) is Some,
        r is Ok ==> json_parse(b@) == Some(r->Ok_0.view()),
{
    serde_json::from_slice::<serde_json::Value>(b).map(from_value).map_err(|e| e.to_string())
}

/// Relies on the variants of serde_json::Value: moves a parsed document into
/// the library's own type, one variant for one.
#[verifier::external_body]
fn from_value(v: serde_json::Value) -> Json {
    match v {
        serde_json::Value::Null => Json::Null,
        serde_json::Value::Bool(b) => Json::Bool(b),
        serde_json::Value::Number(n) => Json::Number(from_number(n)),
        serde_json::Value::String(s) => Json::Str(s),
        serde_json::Value::Array(a) => Json::Array(a.into_iter().map(from_value).collect()),
        serde_json::Value::Object(m) => Json::Object(
            m.into_iter().map(|(k, v)| (k, from_value(v))).collect(),
        ),
    }
}

/// Relies on serde_json::Number::as_u64 and as_i64, which tell its integer
/// variants apart; any other number keeps its decimal text.
#[verifier::external_body]
fn from_number(n: serde_json::Number) -> JsonNumber {
    match (n.as_u64(), n.as_i64()) {
        (Some(u), _) => JsonNumber::PosInt(u),
        (None, Some(i)) => JsonNumber::NegInt(i),
        (None, None) => JsonNumber::Other(n.to_string()),
    }
}

} // verus!
