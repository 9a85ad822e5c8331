//! The header fields of a request: a multi-valued map keyed by the field
//! name in lower case.
//!
//! Names are folded by ASCII: the letters `A` to `Z` become `a` to `z`, and
//! every other character, a capital letter outside ASCII too, stays as it
//! is. So `Content-Length` and `content-length` are one name, and two names
//! that differ in the case of a letter outside ASCII are two.

use crate::multi_map::{inserted, MultiMap, Value, ValueView};
use crate::text::{
    chars_of, find_from, first_index, lemma_first_index, lower, parse_decimal, split, split_once,
    str_parse_decimal, str_split, str_split_once, str_trim, to_lowercase, trim, views,
};
use vstd::prelude::*;
use vstd::string::StrSliceExecFns;

verus! {

/// What can go wrong when header fields are parsed or looked up.
#[derive(Debug, PartialEq, Eq, Clone, Copy, Structural)]
pub enum HeaderError {
    /// A header line holds no colon.
    MissingColon,
    /// A single value was asked of a field that holds a vector.
    NotScalar,
    /// The value is not a decimal number that fits a `usize`.
    InvalidNumber,
}

impl HeaderError {
    pub fn to_string(&self) -> (s: String)
        ensures
            s@ == match self {
                HeaderError::MissingColon => "missing colon delimiter"@,
                HeaderError::NotScalar => "not scalar"@,
                HeaderError::InvalidNumber => "invalid number"@,
            },
    {
        match self {
            HeaderError::MissingColon => "missing colon delimiter".to_owned(),
            HeaderError::NotScalar => "not scalar".to_owned(),
            HeaderError::InvalidNumber => "invalid number".to_owned(),
        }
    }
}

/// The field values as a map sees them: text in place of strings.
pub type FieldMap = Map<Seq<char>, ValueView<Seq<char>>>;

/// The characters of each string of `v`.
pub open spec fn texts(v: Seq<String>) -> Seq<Seq<char>> {
    Seq::new(v.len(), |i: int| v[i]@)
}

/// A stored value with each string replaced by its characters.
pub open spec fn text_value(v: ValueView<String>) -> ValueView<Seq<char>> {
    match v {
        ValueView::Scalar(s) => ValueView::Scalar(s@),
        ValueView::Vector(v) => ValueView::Vector(texts(v)),
    }
}

/// A map of stored values with each string replaced by its characters.
pub open spec fn text_map(m: Map<Seq<char>, ValueView<String>>) -> FieldMap {
    Map::new(|k: Seq<char>| m.contains_key(k), |k: Seq<char>| text_value(m[k]))
}

/// Each part of `parts` without the white space at its ends.
pub open spec fn trimmed(parts: Seq<Seq<char>>) -> Seq<Seq<char>> {
    Seq::new(parts.len(), |i: int| trim(parts[i]))
}

/// What the text after the colon of a header line stands for: its parts
/// between commas, each trimmed; a scalar where there is no comma.
pub open spec fn line_value(values_line: Seq<char>) -> ValueView<Seq<char>> {
    let parts = split(values_line, ',');
    if parts.len() == 1 {
        ValueView::Scalar(trim(parts[0]))
    } else {
        ValueView::Vector(trimmed(parts))
    }
}

/// `line` without a carriage return at its end.
pub open spec fn without_cr(line: Seq<char>) -> Seq<char> {
    if line.len() > 0 && line.last() == '\r' {
        line.drop_last()
    } else {
        line
    }
}

/// The fields of a header block, added to `acc`. The block is read line by
/// line up to its end or its first empty line. A line ends at a line feed,
/// and a carriage return before that line feed is not part of the line.
/// `None` where a line holds no colon.
pub open spec fn parse_block(s: Seq<char>, acc: FieldMap) -> Option<FieldMap>
    decreases s.len(),
{
    let i = first_index(s, '\n');
    if s.len() == 0 {
        Some(acc)
    } else if 0 <= i < s.len() {
        let line = without_cr(s.take(i));
        if line.len() == 0 {
            Some(acc)
        } else {
            match split_once(line, ':') {
                None => None,
                Some((k, v)) => parse_block(s.skip(i + 1), inserted(acc, lower(k), line_value(v))),
            }
        }
    } else {
        match split_once(s, ':') {
            None => None,
            Some((k, v)) => Some(inserted(acc, lower(k), line_value(v))),
        }
    }
}

/// Inserting a value into a map of strings is inserting its text into the
/// map of texts.
pub proof fn lemma_text_map_inserted(
    m: Map<Seq<char>, ValueView<String>>,
    key: Seq<char>,
    value: ValueView<String>,
)
    ensures
        text_map(inserted(m, key, value)) == inserted(text_map(m), key, text_value(value)),
{
    let l = text_map(inserted(m, key, value));
    let r = inserted(text_map(m), key, text_value(value));
    assert forall|k: Seq<char>| l.contains_key(k) implies l[k] == r[k] by {
        if k == key && m.contains_key(key) {
            assert(texts(m[key].items() + value.items()) =~= text_value(m[key]).items()
                + text_value(value).items());
        }
    }
    assert(l =~= r);
}

/// The header fields of a request. A name is looked up in lower case, folded
/// by ASCII only: see the head of this file.
#[derive(Debug)]
pub struct Headers(MultiMap<String>);

impl View for Headers {
    type V = FieldMap;

    closed spec fn view(&self) -> FieldMap {
        text_map(self.0@)
    }
}

impl Headers {
    pub fn new(mm: MultiMap<String>) -> (h: Self)
        ensures
            h@ == text_map(mm@),
    {
        Self(mm)
    }

    pub fn new_empty() -> (h: Self)
        ensures
            h@ == Map::<Seq<char>, ValueView<Seq<char>>>::empty(),
    {
        let h = Self(MultiMap::new_empty());
        proof {
            assert(h@ =~= Map::<Seq<char>, ValueView<Seq<char>>>::empty());
        }
        h
    }

    /// Reads the values of one header line: the parts between commas, each
    /// trimmed. One part makes a scalar, more make a vector.
    pub fn parse_values_line(values_line: &str) -> (v: Value<String>)
        ensures
            text_value(v@) == line_value(values_line@),
            v@.items().len() >= 1,
    {
        let parts = str_split(values_line, ',');
        if parts.len() == 1 {
            proof {
                assert(views(parts@)[0] == parts@[0]@);
            }
            Value::Scalar(str_trim(parts[0]).to_owned())
        } else {
            let mut values: Vec<String> = Vec::new();
            let mut i: usize = 0;
            while i < parts.len()
                invariant
                    i <= parts@.len(),
                    values@.len() == i,
                    forall|j: int|
                        0 <= j < i ==> (#[trigger] values@[j])@ == trim(views(parts@)[j]),
                decreases parts@.len() - i,
            {
                proof {
                    assert(views(parts@)[i as int] == parts@[i as int]@);
                }
                values.push(str_trim(parts[i]).to_owned());
                i += 1;
            }
            proof {
                assert(texts(values@) =~= trimmed(views(parts@)));
            }
            Value::Vector(values)
        }
    }

    /// Reads a header block: lines of the form `name: value`, up to the end
    /// of `raw` or its first empty line. Each name is kept in lower case,
    /// folded by ASCII only.
    pub fn parse(raw: &str) -> (r: Result<Self, HeaderError>)
        ensures
            match r {
                Ok(h) => parse_block(raw@, Map::empty()) == Some(h@),
                Err(e) => parse_block(raw@, Map::empty()) is None && e == HeaderError::MissingColon,
            },
    {
        let v = chars_of(raw);
        let n = v.len();
        let mut mm: MultiMap<String> = MultiMap::new_empty();
        let mut pos: usize = 0;
        proof {
            assert(raw@.skip(0) =~= raw@);
            assert(text_map(mm@) =~= Map::<Seq<char>, ValueView<Seq<char>>>::empty());
        }
        while pos < n
            invariant
                n == v@.len(),
                v@ == raw@,
                pos <= n,
                parse_block(raw@, Map::empty()) == parse_block(
                    raw@.skip(pos as int),
                    text_map(mm@),
                ),
            decreases n - pos,
        {
            let ghost rest = raw@.skip(pos as int);
            let i = find_from(&v, pos, '\n');
            let mut end = i;
            if i < n && end > pos && v[end - 1] == '\r' {
                end = end - 1;
            }
            let line = raw.substring_char(pos, end);
            proof {
                lemma_first_index(rest, '\n');
                if i < n {
                    let full = rest.take(i - pos);
                    assert(full =~= raw@.subrange(pos as int, i as int));
                    if full.len() > 0 && full.last() == '\r' {
                        assert(full.drop_last() =~= raw@.subrange(pos as int, end as int));
                    }
                    assert(line@ == without_cr(full));
                    assert(rest.skip(i - pos + 1) =~= raw@.skip(i + 1));
                } else {
                    assert(line@ =~= rest);
                }
            }
            if line.unicode_len() == 0 {
                return Ok(Self(mm));
            }
            match str_split_once(line, ':') {
                None => {
                    return Err(HeaderError::MissingColon);
                },
                Some((k, values_line)) => {
                    let key = to_lowercase(k);
                    let value = Self::parse_values_line(values_line);
                    proof {
                        lemma_text_map_inserted(mm@, key@, value@);
                    }
                    mm.insert(key, value);
                },
            }
            if i < n {
                pos = i + 1;
            } else {
                pos = n;
                proof {
                    assert(raw@.skip(n as int).len() == 0);
                }
            }
        }
        proof {
            assert(raw@.skip(pos as int).len() == 0);
        }
        Ok(Self(mm))
    }

    /// The one value of the field `key`, whose name is matched without
    /// regard to the case of ASCII letters. It is an error to ask this of a
    /// field that holds a vector.
    pub fn get_scalar(&self, key: &str) -> (r: Result<Option<&str>, HeaderError>)
        ensures
            match r {
                Ok(Some(s)) => self@.contains_key(lower(key@)) && self@[lower(key@)]
                    == ValueView::Scalar(s@),
                Ok(None) => !self@.contains_key(lower(key@)),
                Err(e) => self@.contains_key(lower(key@)) && self@[lower(key@)] is Vector && e
                    == HeaderError::NotScalar,
            },
    {
        let name = to_lowercase(key);
        match self.0.get_scalar(name.as_str()) {
            Ok(Some(s)) => Ok(Some(s.as_str())),
            Ok(None) => Ok(None),
            Err(_) => Err(HeaderError::NotScalar),
        }
    }

    /// The values of the field `key`, in the order in which they were
    /// received; `None` where the field is absent. The name is matched
    /// without regard to the case of ASCII letters.
    pub fn get_iter(&self, key: &str) -> (r: Option<Vec<&str>>)
        ensures
            match r {
                Some(values) => self@.contains_key(lower(key@)) && views(values@)
                    == self@[lower(key@)].items() && values@.len() >= 1,
                None => !self@.contains_key(lower(key@)),
            },
    {
        let name = to_lowercase(key);
        match self.0.get_value_iter(name.as_str()) {
            Some(it) => {
                let found = it.collect();
                let mut values: Vec<&str> = Vec::new();
                let mut i: usize = 0;
                while i < found.len()
                    invariant
                        i <= found@.len(),
                        values@.len() == i,
                        forall|j: int| 0 <= j < i ==> (#[trigger] values@[j])@ == found@[j]@,
                    decreases found@.len() - i,
                {
                    values.push(found[i].as_str());
                    i += 1;
                }
                proof {
                    assert(views(values@) =~= text_value(self.0@[name@]).items());
                }
                Some(values)
            },
            None => None,
        }
    }

    pub fn get_accept_encoding(&self) -> (r: Option<Vec<&str>>)
        ensures
            match r {
                Some(values) => self@.contains_key("accept-encoding"@) && views(values@)
                    == self@["accept-encoding"@].items() && values@.len() >= 1,
                None => !self@.contains_key("accept-encoding"@),
            },
    {
        proof {
            reveal_strlit("accept-encoding");
            assert(lower("accept-encoding"@) =~= "accept-encoding"@);
        }
        self.get_iter("accept-encoding")
    }

    pub fn get_connection(&self) -> (r: Option<Vec<&str>>)
        ensures
            match r {
                Some(values) => self@.contains_key("connection"@) && views(values@)
                    == self@["connection"@].items() && values@.len() >= 1,
                None => !self@.contains_key("connection"@),
            },
    {
        proof {
            reveal_strlit("connection");
            assert(lower("connection"@) =~= "connection"@);
        }
        self.get_iter("connection")
    }

    /// The length that the field `content-length` announces, where the
    /// field is there. It is an error if the field holds a vector, or a
    /// value that is no decimal number.
    pub fn get_content_length(&self) -> (r: Result<Option<usize>, HeaderError>)
        ensures
            r == content_length(self@),
    {
        proof {
            reveal_strlit("content-length");
            assert(lower("content-length"@) =~= "content-length"@);
        }
        match self.get_scalar("content-length") {
            Ok(Some(length)) => match str_parse_decimal(length) {
                Some(n) => Ok(Some(n)),
                None => Err(HeaderError::InvalidNumber),
            },
            Ok(None) => Ok(None),
            Err(e) => Err(e),
        }
    }

    pub fn get_user_agent(&self) -> (r: Result<Option<&str>, HeaderError>)
        ensures
            match r {
                Ok(Some(s)) => self@.contains_key("user-agent"@) && self@["user-agent"@]
                    == ValueView::Scalar(s@),
                Ok(None) => !self@.contains_key("user-agent"@),
                Err(e) => self@.contains_key("user-agent"@) && self@["user-agent"@] is Vector && e
                    == HeaderError::NotScalar,
            },
    {
        proof {
            reveal_strlit("user-agent");
            assert(lower("user-agent"@) =~= "user-agent"@);
        }
        self.get_scalar("user-agent")
    }
}

/// What the field `content-length` of `fields` announces.
pub open spec fn content_length(fields: FieldMap) -> Result<Option<usize>, HeaderError> {
    if !fields.contains_key("content-length"@) {
        Ok(None)
    } else {
        match fields["content-length"@] {
            ValueView::Vector(_) => Err(HeaderError::NotScalar),
            ValueView::Scalar(s) => match parse_decimal(s) {
                Some(n) => Ok(Some(n as usize)),
                None => Err(HeaderError::InvalidNumber),
            },
        }
    }
}

/// Whether `fields` holds `token` among the values of the field `name`.
pub open spec fn has_token(fields: FieldMap, name: Seq<char>, token: Seq<char>) -> bool {
    fields.contains_key(name) && fields[name].items().contains(token)
}

} // verus!
