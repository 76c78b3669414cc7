//! JSON values.

use vstd::prelude::*;
use vstd::string::*;

use crate::text::{same, texts, write_number, write_signed};
use crate::text::{decimal, decimal_int};

verus! {

/// A JSON value.
#[derive(Debug, PartialEq)]
pub enum Json {
    Null,
    Bool(bool),
    /// A number that is not negative and has no fraction.
    Unsigned(u64),
    /// A negative number without a fraction.
    Negative(i64),
    /// A number with a fraction, in its shortest decimal form.
    Float(String),
    Str(String),
    Array(Vec<Json>),
    Object(Vec<(String, Json)>),
}

/// What a JSON value stands for.
pub enum JsonView {
    Null,
    Bool(bool),
    Unsigned(u64),
    Negative(i64),
    Float(Seq<char>),
    Str(Seq<char>),
    Array(Seq<JsonView>),
    Object(Seq<(Seq<char>, JsonView)>),
}

impl View for Json {
    type V = JsonView;

    open spec fn view(&self) -> JsonView {
        self.meaning()
    }
}

impl Json {
    /// What the value stands for.
    pub open spec fn meaning(self) -> JsonView
        decreases self,
    {
        match self {
            Json::Null => JsonView::Null,
            Json::Bool(b) => JsonView::Bool(b),
            Json::Unsigned(n) => JsonView::Unsigned(n),
            Json::Negative(n) => JsonView::Negative(n),
            Json::Float(t) => JsonView::Float(t@),
            Json::Str(s) => JsonView::Str(s@),
            Json::Array(v) => JsonView::Array(
                Seq::new(
                    v@.len(),
                    |i: int|
                        if 0 <= i < v@.len() {
                            v@[i].meaning()
                        } else {
                            JsonView::Null
                        },
                ),
            ),
            Json::Object(v) => JsonView::Object(
                Seq::new(
                    v@.len(),
                    |i: int|
                        if 0 <= i < v@.len() {
                            (v@[i].0@, v@[i].1.meaning())
                        } else {
                            (Seq::empty(), JsonView::Null)
                        },
                ),
            ),
        }
    }
}

/// The views of a list of values.
pub open spec fn values(v: Seq<Json>) -> Seq<JsonView> {
    Seq::new(v.len(), |i: int| v[i]@)
}

/// The views of the fields of an object.
pub open spec fn fields(v: Seq<(String, Json)>) -> Seq<(Seq<char>, JsonView)> {
    Seq::new(v.len(), |i: int| (v[i].0@, v[i].1@))
}

/// The view of an array is made of the views of its values.
pub proof fn array_view(v: Vec<Json>)
    ensures
        Json::Array(v)@ == JsonView::Array(values(v@)),
{
    reveal_with_fuel(Json::meaning, 2);
    let j = Json::Array(v);
    assert(j@->Array_0 =~= values(v@));
}

/// The view of an object is made of the views of its fields.
pub proof fn object_view(v: Vec<(String, Json)>)
    ensures
        Json::Object(v)@ == JsonView::Object(fields(v@)),
{
    reveal_with_fuel(Json::meaning, 2);
    let j = Json::Object(v);
    assert(j@->Object_0 =~= fields(v@));
}

/// Where the first field of that name stands, from `i` on, or the length.
pub open spec fn field_place(f: Seq<(Seq<char>, JsonView)>, key: Seq<char>, i: int) -> int
    decreases f.len() - i,
{
    if i < 0 || i >= f.len() {
        f.len() as int
    } else if f[i].0 == key {
        i
    } else {
        field_place(f, key, i + 1)
    }
}

impl JsonView {
    /// The field of that name, when the value is an object that has it.
    pub open spec fn get(self, key: Seq<char>) -> Option<JsonView> {
        match self {
            JsonView::Object(f) => {
                let i = field_place(f, key, 0);
                if i < f.len() {
                    Some(f[i].1)
                } else {
                    None
                }
            },
            _ => None,
        }
    }

    /// Tells whether the value is an object that has a field of that name with that
    /// value.
    pub open spec fn says(self, key: Seq<char>, value: JsonView) -> bool {
        match self {
            JsonView::Object(f) => f.contains((key, value)),
            _ => false,
        }
    }

    /// The text, when the value is one.
    pub open spec fn text(self) -> Option<Seq<char>> {
        match self {
            JsonView::Str(s) => Some(s),
            _ => None,
        }
    }

    /// The flag, when the value is one.
    pub open spec fn flag(self) -> Option<bool> {
        match self {
            JsonView::Bool(b) => Some(b),
            _ => None,
        }
    }

    /// The number, when the value is one that has no sign and no fraction and
    /// is at most `max`.
    pub open spec fn number(self, max: u64) -> Option<u64> {
        match self {
            JsonView::Unsigned(n) => if n <= max {
                Some(n)
            } else {
                None
            },
            _ => None,
        }
    }

    /// The number, when the value is one without a fraction that fits in 64 bits
    /// with a sign.
    pub open spec fn signed(self) -> Option<i64> {
        match self {
            JsonView::Unsigned(n) => if n <= i64::MAX {
                Some(n as i64)
            } else {
                None
            },
            JsonView::Negative(n) => Some(n),
            _ => None,
        }
    }

    /// The texts of an array that holds nothing else.
    pub open spec fn text_list(self) -> Option<Seq<Seq<char>>> {
        match self {
            JsonView::Array(v) => if forall|i: int|
                0 <= i < v.len() ==> (#[trigger] v[i]) is Str {
                Some(Seq::new(v.len(), |i: int| v[i]->Str_0))
            } else {
                None
            },
            _ => None,
        }
    }
}

/// The name of a std rendering: a text in double quotes, with the characters
/// escaped that need it.
pub uninterp spec fn quoted(s: Seq<char>) -> Seq<char>;

/// `format!` with `{:?}` on a text: the text in double quotes with its special
/// characters escaped. Which characters are escaped is left unsaid.
#[verifier::external_body]
pub(crate) fn quote(s: &str) -> (r: String)
    ensures
        r@ == quoted(s@),
{
    format!("{:?}", s)
}

/// How a value is called in a message that refuses it.
pub open spec fn described(v: JsonView) -> Seq<char> {
    match v {
        JsonView::Null => "null"@,
        JsonView::Bool(b) => "boolean `"@ + (if b {
            "true"@
        } else {
            "false"@
        }) + "`"@,
        JsonView::Unsigned(n) => "integer `"@ + decimal(n as nat) + "`"@,
        JsonView::Negative(n) => "integer `"@ + decimal_int(n as int) + "`"@,
        JsonView::Float(t) => "floating point `"@ + t + "`"@,
        JsonView::Str(s) => "string "@ + quoted(s),
        JsonView::Array(_) => "sequence"@,
        JsonView::Object(_) => "map"@,
    }
}

/// The message that refuses a value of a wrong kind.
pub open spec fn wrong_type(v: JsonView, expected: Seq<char>) -> Seq<char> {
    "invalid type: "@ + described(v) + ", expected "@ + expected
}

/// The message that refuses a value that does not fit.
pub open spec fn wrong_value(v: JsonView, expected: Seq<char>) -> Seq<char> {
    "invalid value: "@ + described(v) + ", expected "@ + expected
}

impl Json {
    /// A copy of the value.
    pub fn copy(&self) -> (r: Json)
        ensures
            r@ == self@,
        decreases self,
    {
        match self {
            Json::Null => Json::Null,
            Json::Bool(b) => Json::Bool(*b),
            Json::Unsigned(n) => Json::Unsigned(*n),
            Json::Negative(n) => Json::Negative(*n),
            Json::Float(t) => Json::Float(t.clone()),
            Json::Str(s) => Json::Str(s.clone()),
            Json::Array(v) => {
                let mut out: Vec<Json> = Vec::new();
                let mut i: usize = 0;
                while i < v.len()
                    invariant
                        i <= v@.len(),
                        out@.len() == i,
                        self == Json::Array(*v),
                        forall|j: int| 0 <= j < i ==> (#[trigger] out@[j])@ == v@[j]@,
                    decreases v@.len() - i,
                {
                    assert(decreases_to!(self => self->Array_0@[i as int]));
                    out.push(v[i].copy());
                    i += 1;
                }
                proof {
                    array_view(*v);
                    array_view(out);
                    assert(values(out@) =~= values(v@));
                }
                Json::Array(out)
            },
            Json::Object(v) => {
                let mut out: Vec<(String, Json)> = Vec::new();
                let mut i: usize = 0;
                while i < v.len()
                    invariant
                        i <= v@.len(),
                        out@.len() == i,
                        self == Json::Object(*v),
                        forall|j: int|
                            0 <= j < i ==> (#[trigger] out@[j]).1@ == v@[j].1@ && out@[j].0@
                                == v@[j].0@,
                    decreases v@.len() - i,
                {
                    let name = v[i].0.clone();
                    assert(decreases_to!(self => self->Object_0@[i as int].1));
                    out.push((name, v[i].1.copy()));
                    i += 1;
                }
                proof {
                    object_view(*v);
                    object_view(out);
                    assert(fields(out@) =~= fields(v@));
                }
                Json::Object(out)
            },
        }
    }

    /// The field of that name, when the value is an object that has it.
    pub fn get(&self, key: &str) -> (r: Option<&Json>)
        ensures
            match r {
                Some(v) => self@.get(key@) == Some(v@),
                None => self@.get(key@) is None,
            },
    {
        match self {
            Json::Object(v) => {
                proof {
                    object_view(*v);
                }
                let ghost f = fields(v@);
                let mut i: usize = 0;
                while i < v.len()
                    invariant
                        i <= v@.len(),
                        f == fields(v@),
                        self == Json::Object(*v),
                        self@ == JsonView::Object(f),
                        field_place(f, key@, 0) == field_place(f, key@, i as int),
                    decreases v@.len() - i,
                {
                    if same(v[i].0.as_str(), key) {
                        return Some(&v[i].1);
                    }
                    i += 1;
                }
                None
            },
            _ => None,
        }
    }

    /// The text, when the value is one.
    pub fn text(&self) -> (r: Option<String>)
        ensures
            match r {
                Some(s) => self@.text() == Some(s@),
                None => self@.text() is None,
            },
    {
        match self {
            Json::Str(s) => Some(s.clone()),
            _ => None,
        }
    }

    /// The flag, when the value is one.
    pub fn flag(&self) -> (r: Option<bool>)
        ensures
            r == self@.flag(),
    {
        match self {
            Json::Bool(b) => Some(*b),
            _ => None,
        }
    }

    /// The number, when the value is one that has no sign and no fraction and
    /// is at most `max`.
    pub fn number(&self, max: u64) -> (r: Option<u64>)
        ensures
            r == self@.number(max),
    {
        match self {
            Json::Unsigned(n) => if *n <= max {
                Some(*n)
            } else {
                None
            },
            _ => None,
        }
    }

    /// The number, when the value is one without a fraction that fits in 64 bits
    /// with a sign.
    pub fn signed(&self) -> (r: Option<i64>)
        ensures
            r == self@.signed(),
    {
        match self {
            Json::Unsigned(n) => if *n <= i64::MAX as u64 {
                Some(*n as i64)
            } else {
                None
            },
            Json::Negative(n) => Some(*n),
            _ => None,
        }
    }

    /// The texts of an array that holds nothing else.
    pub fn text_list(&self) -> (r: Option<Vec<String>>)
        ensures
            match r {
                Some(v) => self@.text_list() == Some(texts(v@)),
                None => self@.text_list() is None,
            },
    {
        match self {
            Json::Array(v) => {
                proof {
                    array_view(*v);
                }
                let ghost all = values(v@);
                let mut out: Vec<String> = Vec::new();
                let mut i: usize = 0;
                while i < v.len()
                    invariant
                        i <= v@.len(),
                        all == values(v@),
                        self@ == JsonView::Array(all),
                        out@.len() == i,
                        forall|j: int|
                            0 <= j < i ==> (#[trigger] all[j]) is Str && all[j]->Str_0 == out@[j]@,
                    decreases v@.len() - i,
                {
                    match &v[i] {
                        Json::Str(s) => {
                            assert(all[i as int] == JsonView::Str(s@));
                            out.push(s.clone());
                        },
                        _ => {
                            assert(!(all[i as int] is Str));
                            return None;
                        },
                    }
                    i += 1;
                }
                assert(texts(out@) =~= Seq::new(all.len(), |j: int| all[j]->Str_0));
                Some(out)
            },
            _ => None,
        }
    }

    /// How the value is called in a message that refuses it.
    fn describe(&self) -> (r: String)
        ensures
            r@ == described(self@),
    {
        match self {
            Json::Null => "null".to_owned(),
            Json::Bool(b) => {
                let mut s = "boolean `".to_owned();
                s.append(
                    if *b {
                        "true"
                    } else {
                        "false"
                    },
                );
                s.append("`");
                s
            },
            Json::Unsigned(n) => {
                let mut s = "integer `".to_owned();
                s.append(write_number(*n).as_str());
                s.append("`");
                s
            },
            Json::Negative(n) => {
                let mut s = "integer `".to_owned();
                s.append(write_signed(*n).as_str());
                s.append("`");
                s
            },
            Json::Float(t) => {
                let mut s = "floating point `".to_owned();
                s.append(t.as_str());
                s.append("`");
                s
            },
            Json::Str(t) => {
                let mut s = "string ".to_owned();
                s.append(quote(t.as_str()).as_str());
                s
            },
            Json::Array(_) => "sequence".to_owned(),
            Json::Object(_) => "map".to_owned(),
        }
    }

    /// The message that refuses the value as one of a wrong kind.
    pub fn refuse_type(&self, expected: &str) -> (r: String)
        ensures
            r@ == wrong_type(self@, expected@),
    {
        let mut s = "invalid type: ".to_owned();
        s.append(self.describe().as_str());
        s.append(", expected ");
        s.append(expected);
        s
    }

    /// The message that refuses the value as one that does not fit.
    pub fn refuse_value(&self, expected: &str) -> (r: String)
        ensures
            r@ == wrong_value(self@, expected@),
    {
        let mut s = "invalid value: ".to_owned();
        s.append(self.describe().as_str());
        s.append(", expected ");
        s.append(expected);
        s
    }

    /// An array of texts.
    pub fn of_texts(v: &Vec<String>) -> (r: Json)
        ensures
            r@ == JsonView::Array(
                Seq::new(v@.len(), |i: int| JsonView::Str(v@[i]@)),
            ),
    {
        let mut out: Vec<Json> = Vec::new();
        let mut i: usize = 0;
        while i < v.len()
            invariant
                i <= v@.len(),
                out@.len() == i,
                forall|j: int| 0 <= j < i ==> (#[trigger] out@[j])@ == JsonView::Str(v@[j]@),
            decreases v@.len() - i,
        {
            out.push(Json::Str(v[i].clone()));
            i += 1;
        }
        proof {
            array_view(out);
            assert(values(out@) =~= Seq::new(v@.len(), |i: int| JsonView::Str(v@[i]@)));
        }
        Json::Array(out)
    }
}

/// No fields.
pub open spec fn no_fields() -> Seq<(Seq<char>, JsonView)> {
    Seq::empty()
}

/// The fields of an object that is being put together.
pub struct Fields {
    list: Vec<(String, Json)>,
}

impl View for Fields {
    type V = Seq<(Seq<char>, JsonView)>;

    closed spec fn view(&self) -> Seq<(Seq<char>, JsonView)> {
        fields(self.list@)
    }
}

impl Fields {
    /// No fields.
    pub fn new() -> (r: Self)
        ensures
            r@ == no_fields(),
    {
        let r = Fields { list: Vec::new() };
        assert(r@ =~= no_fields());
        r
    }

    /// One more field.
    pub fn with(self, key: &str, value: Json) -> (r: Self)
        ensures
            r@ == self@.push((key@, value@)),
    {
        let mut list = self.list;
        let ghost old = list@;
        list.push((key.to_owned(), value));
        assert(fields(list@) =~= fields(old).push((key@, value@)));
        Fields { list }
    }

    /// One more field that is a text.
    pub fn text(self, key: &str, value: &str) -> (r: Self)
        ensures
            r@ == self@.push((key@, JsonView::Str(value@))),
    {
        self.with(key, Json::Str(value.to_owned()))
    }

    /// One more field that is a number.
    pub fn number(self, key: &str, value: u64) -> (r: Self)
        ensures
            r@ == self@.push((key@, JsonView::Unsigned(value))),
    {
        self.with(key, Json::Unsigned(value))
    }

    /// One more field that is a flag.
    pub fn flag(self, key: &str, value: bool) -> (r: Self)
        ensures
            r@ == self@.push((key@, JsonView::Bool(value))),
    {
        self.with(key, Json::Bool(value))
    }

    /// The object.
    pub fn object(self) -> (r: Json)
        ensures
            r@ == JsonView::Object(self@),
    {
        proof {
            object_view(self.list);
        }
        Json::Object(self.list)
    }
}

/// A field is found by its name: the first of that name counts, and one that is not there is
/// not found.
pub proof fn fields_are_found_by_name(
    f: Seq<(Seq<char>, JsonView)>,
    key: Seq<char>,
    i: int,
)
    requires
        0 <= i <= f.len(),
        forall|j: int| 0 <= j < i ==> (#[trigger] f[j]).0 != key,
    ensures
        i < f.len() && f[i].0 == key ==> JsonView::Object(f).get(key) == Some(f[i].1),
        i == f.len() ==> JsonView::Object(f).get(key) is None,
{
    lemma_field_place(f, key, 0, i);
}

proof fn lemma_field_place(f: Seq<(Seq<char>, JsonView)>, key: Seq<char>, k: int, i: int)
    requires
        0 <= k <= i <= f.len(),
        forall|j: int| 0 <= j < i ==> (#[trigger] f[j]).0 != key,
    ensures
        i < f.len() && f[i].0 == key ==> field_place(f, key, k) == i,
        i == f.len() ==> field_place(f, key, k) == i,
    decreases i - k,
{
    if k < i {
        lemma_field_place(f, key, k + 1, i);
    }
}

/// A number is read where it has the right sign and is not too large, and a signed one where it
/// fits in 64 bits; nothing that is no number is read as one.
pub proof fn numbers_are_read_where_they_fit(v: JsonView, n: u64, m: i64, max: u64)
    ensures
        JsonView::Unsigned(n).number(max) == (if n <= max {
            Some(n)
        } else {
            None::<u64>
        }),
        JsonView::Negative(m).number(max) is None,
        !(v is Unsigned) ==> v.number(max) is None,
        !(v is Unsigned) && !(v is Negative) ==> v.signed() is None,
        JsonView::Negative(m).signed() == Some(m),
        n <= 0x7fff_ffff_ffff_ffff ==> (JsonView::Unsigned(n).signed() matches Some(s) && s == n),
        n > 0x7fff_ffff_ffff_ffff ==> JsonView::Unsigned(n).signed() is None,
{
}

/// A value is called by its type, and one with a short form by that too.
pub proof fn values_are_called_by_their_type(n: u64, m: i64, s: Seq<char>, a: Seq<JsonView>)
    ensures
        described(JsonView::Null) == "null"@,
        described(JsonView::Bool(true)) == "boolean `"@ + "true"@ + "`"@,
        described(JsonView::Bool(false)) == "boolean `"@ + "false"@ + "`"@,
        described(JsonView::Unsigned(n)) == "integer `"@ + decimal(n as nat) + "`"@,
        described(JsonView::Negative(m)) == "integer `"@ + decimal_int(m as int) + "`"@,
        described(JsonView::Float(s)) == "floating point `"@ + s + "`"@,
        described(JsonView::Str(s)) == "string "@ + quoted(s),
        described(JsonView::Array(a)) == "sequence"@,
{
}

} // verus!
