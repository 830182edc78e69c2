//! JSON documents, as plain values.

use vstd::prelude::*;
use vstd::string::*;

use crate::text::{int_form, same_text};

verus! {

/// A JSON value.
#[derive(Debug)]
pub enum Json {
    Null,
    Bool(bool),
    /// A whole number that is not negative.
    Unsigned(u64),
    /// A negative whole number.
    Negative(i64),
    /// Any other number, as it is written.
    Real(String),
    Str(String),
    Array(Vec<Json>),
    /// Every key once.
    Object(Vec<(String, Json)>),
}

/// What a JSON value stands for.
pub enum Tree {
    Null,
    Bool(bool),
    Unsigned(u64),
    Negative(i64),
    Real(Seq<char>),
    Str(Seq<char>),
    Array(Seq<Tree>),
    Object(Seq<(Seq<char>, Tree)>),
}

pub open spec fn tree(j: Json) -> Tree
    decreases j,
{
    match j {
        Json::Null => Tree::Null,
        Json::Bool(b) => Tree::Bool(b),
        Json::Unsigned(n) => Tree::Unsigned(n),
        Json::Negative(n) => Tree::Negative(n),
        Json::Real(s) => Tree::Real(s@),
        Json::Str(s) => Tree::Str(s@),
        Json::Array(v) => Tree::Array(
            Seq::new(
                v@.len(),
                |i: int|
                    if 0 <= i < v@.len() {
                        tree(v@[i])
                    } else {
                        Tree::Null
                    },
            ),
        ),
        Json::Object(v) => Tree::Object(
            Seq::new(
                v@.len(),
                |i: int|
                    if 0 <= i < v@.len() {
                        (v@[i].0@, tree(v@[i].1))
                    } else {
                        (seq![], Tree::Null)
                    },
            ),
        ),
    }
}

impl View for Json {
    type V = Tree;

    open spec fn view(&self) -> Tree {
        tree(*self)
    }
}

/// What a list of JSON values stands for.
pub open spec fn trees(s: Seq<Json>) -> Seq<Tree> {
    s.map_values(|j: Json| j@)
}

/// The value of the first of the members from `i` on that has the key.
pub open spec fn member(s: Seq<(Seq<char>, Tree)>, key: Seq<char>, i: int) -> Option<Tree>
    decreases s.len() - i,
{
    if i >= s.len() {
        None
    } else if s[i].0 == key {
        Some(s[i].1)
    } else {
        member(s, key, i + 1)
    }
}

impl Tree {
    /// The member of an object.
    pub open spec fn get(self, key: Seq<char>) -> Option<Tree> {
        match self {
            Tree::Object(s) => member(s, key, 0),
            _ => None,
        }
    }

    /// The member of an object, null where there is none.
    pub open spec fn at(self, key: Seq<char>) -> Tree {
        match self.get(key) {
            Some(t) => t,
            None => Tree::Null,
        }
    }

    pub open spec fn str(self) -> Option<Seq<char>> {
        match self {
            Tree::Str(s) => Some(s),
            _ => None,
        }
    }

    pub open spec fn bool(self) -> Option<bool> {
        match self {
            Tree::Bool(b) => Some(b),
            _ => None,
        }
    }

    pub open spec fn array(self) -> Option<Seq<Tree>> {
        match self {
            Tree::Array(s) => Some(s),
            _ => None,
        }
    }

    /// A whole number of 64 bits with a sign.
    pub open spec fn signed(self) -> Option<int> {
        match self {
            Tree::Unsigned(n) => if n <= i64::MAX {
                Some(n as int)
            } else {
                None
            },
            Tree::Negative(n) => Some(n as int),
            _ => None,
        }
    }

    /// A whole number of 64 bits without a sign.
    pub open spec fn unsigned(self) -> Option<int> {
        match self {
            Tree::Unsigned(n) => Some(n as int),
            _ => None,
        }
    }
}

pub open spec fn opt_text(x: Option<&str>) -> Option<Seq<char>> {
    match x {
        Some(s) => Some(s@),
        None => None,
    }
}

impl Json {
    pub fn get(&self, key: &str) -> (r: Option<&Json>)
        ensures
            match r {
                Some(j) => self@.get(key@) == Some(j@),
                None => self@.get(key@) is None,
            },
    {
        match self {
            Json::Object(v) => {
                let ghost s = match self@ {
                    Tree::Object(s) => s,
                    _ => seq![],
                };
                let mut i: usize = 0;
                while i < v.len()
                    invariant
                        i <= v@.len() == s.len(),
                        self@ == Tree::Object(s),
                        forall|j: int|
                            0 <= j < s.len() ==> #[trigger] s[j] == (v@[j].0@, v@[j].1@),
                        member(s, key@, 0) == member(s, key@, i as int),
                    decreases v@.len() - i,
                {
                    assert(s[i as int] == (v@[i as int].0@, v@[i as int].1@));
                    if same_text(v[i].0.as_str(), key) {
                        return Some(&v[i].1);
                    }
                    i = i + 1;
                }
                None
            },
            _ => None,
        }
    }

    pub fn as_str(&self) -> (r: Option<&str>)
        ensures
            opt_text(r) == self@.str(),
    {
        match self {
            Json::Str(s) => Some(s.as_str()),
            _ => None,
        }
    }

    pub fn as_array(&self) -> (r: Option<&Vec<Json>>)
        ensures
            match r {
                Some(v) => self@.array() == Some(trees(v@)),
                None => self@.array() is None,
            },
    {
        match self {
            Json::Array(v) => {
                assert(self@->Array_0 =~= trees(v@));
                Some(v)
            },
            _ => None,
        }
    }

    pub fn as_i64(&self) -> (r: Option<i64>)
        ensures
            match r {
                Some(n) => self@.signed() == Some(n as int),
                None => self@.signed() is None,
            },
    {
        match self {
            Json::Unsigned(n) => if *n <= i64::MAX as u64 {
                Some(*n as i64)
            } else {
                None
            },
            Json::Negative(n) => Some(*n),
            _ => None,
        }
    }

    pub fn as_u64(&self) -> (r: Option<u64>)
        ensures
            match r {
                Some(n) => self@.unsigned() == Some(n as int),
                None => self@.unsigned() is None,
            },
    {
        match self {
            Json::Unsigned(n) => Some(*n),
            _ => None,
        }
    }

    /// The member of an object, or `null` where there is none.
    pub fn at<'a>(&'a self, key: &str, null: &'a Json) -> (r: &'a Json)
        requires
            null@ == Tree::Null,
        ensures
            r@ == self@.at(key@),
    {
        match self.get(key) {
            Some(j) => j,
            None => null,
        }
    }

    /// The string that a member holds.
    pub fn str_at(&self, key: &str) -> (r: Option<&str>)
        ensures
            opt_text(r) == self@.at(key@).str(),
    {
        match self.get(key) {
            Some(j) => j.as_str(),
            None => None,
        }
    }

    /// Is the member a string with this text?
    pub fn is_str_at(&self, key: &str, text: &str) -> (r: bool)
        ensures
            r == (self@.at(key@).str() == Some(text@)),
    {
        match self.str_at(key) {
            Some(s) => same_text(s, text),
            None => false,
        }
    }

    /// Is the member `true`?
    pub fn is_true_at(&self, key: &str) -> (r: bool)
        ensures
            r == (self@.at(key@).bool() == Some(true)),
    {
        match self.get(key) {
            Some(Json::Bool(b)) => *b,
            _ => false,
        }
    }

    /// The list that a member holds.
    pub fn array_at(&self, key: &str) -> (r: Option<&Vec<Json>>)
        ensures
            match r {
                Some(v) => self@.at(key@).array() == Some(trees(v@)),
                None => self@.at(key@).array() is None,
            },
    {
        match self.get(key) {
            Some(j) => j.as_array(),
            None => None,
        }
    }

    /// Reads a document.  The error is the reader's message.
    pub fn parse(text: &str) -> (r: Result<Json, String>)
        ensures
            document(r) == json_of_text(text@),
    {
        outside_parse(text)
    }

    /// Writes the value without spaces.
    pub fn to_string(&self) -> (r: String)
        ensures
            r@ == text_of_json(self@),
            simple_text(self@) matches Some(s) ==> r@ == s,
    {
        outside_text(self)
    }
}

/// What the reader gave.
pub open spec fn document(r: Result<Json, String>) -> Result<Tree, Seq<char>> {
    match r {
        Ok(j) => Ok(j@),
        Err(e) => Err(e@),
    }
}

// ── The outside crate ─────────────────────────────────────────────

/// What `serde_json::from_str` reads in a text: the value, or the message of
/// its error.
pub uninterp spec fn json_of_text(text: Seq<char>) -> Result<Tree, Seq<char>>;

/// What the `Display` of `serde_json::Value` writes.
pub uninterp spec fn text_of_json(j: Tree) -> Seq<char>;

#[verifier::external_type_specification]
#[verifier::external_body]
pub struct OutsideValue(serde_json::Value);

/// Turns a `serde_json::Value` into the same value of [`Json`]: a variant for
/// a variant, of a number whichever of `as_u64` and `as_i64` has it.
#[verifier::external_body]
fn from_value(v: serde_json::Value) -> Json {
    match v {
        serde_json::Value::Null => Json::Null,
        serde_json::Value::Bool(b) => Json::Bool(b),
        serde_json::Value::Number(n) => match (n.as_u64(), n.as_i64()) {
            (Some(u), _) => Json::Unsigned(u),
            (_, Some(i)) => Json::Negative(i),
            _ => Json::Real(n.to_string()),
        },
        serde_json::Value::String(s) => Json::Str(s),
        serde_json::Value::Array(a) => Json::Array(a.into_iter().map(from_value).collect()),
        serde_json::Value::Object(m) => {
            Json::Object(m.into_iter().map(|(k, v)| (k, from_value(v))).collect())
        },
    }
}

/// Turns a value of [`Json`] into the same `serde_json::Value`.
#[verifier::external_body]
fn to_value(j: &Json) -> serde_json::Value {
    match j {
        Json::Null => serde_json::Value::Null,
        Json::Bool(b) => serde_json::Value::from(*b),
        Json::Unsigned(n) => serde_json::Value::from(*n),
        Json::Negative(n) => serde_json::Value::from(*n),
        Json::Real(s) => s.parse::<serde_json::Value>().unwrap_or_default(),
        Json::Str(s) => serde_json::Value::from(s.as_str()),
        Json::Array(v) => serde_json::Value::Array(v.iter().map(to_value).collect()),
        Json::Object(v) => {
            serde_json::Value::Object(v.iter().map(|(k, j)| (k.clone(), to_value(j))).collect())
        },
    }
}

/// `serde_json::from_str` to a `Value`: the value that the text holds, or the
/// text of the error.  Which texts hold a value is left to the crate.
#[verifier::external_body]
fn outside_parse(text: &str) -> (r: Result<Json, String>)
    ensures
        document(r) == json_of_text(text@),
{
    match serde_json::from_str::<serde_json::Value>(text) {
        Ok(v) => Ok(from_value(v)),
        Err(e) => Err(e.to_string()),
    }
}

/// The text of null, of a truth value or of a whole number.
pub open spec fn simple_text(j: Tree) -> Option<Seq<char>> {
    match j {
        Tree::Null => Some("null"@),
        Tree::Bool(b) => Some(
            if b {
                "true"@
            } else {
                "false"@
            },
        ),
        Tree::Unsigned(n) => Some(int_form(n as int)),
        Tree::Negative(n) => Some(int_form(n as int)),
        _ => None,
    }
}

/// The `Display` of `serde_json::Value`, which writes compact JSON: null and
/// the truth values by their names, whole numbers in decimal.
#[verifier::external_body]
fn outside_text(j: &Json) -> (r: String)
    ensures
        r@ == text_of_json(j@),
        simple_text(j@) matches Some(s) ==> r@ == s,
{
    to_value(j).to_string()
}

} // verus!
