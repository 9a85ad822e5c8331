//! The response under construction: status, ordered header fields and body,
//! and their form on the wire.

use crate::server::HttpMethod;
use crate::status_code_registry::{get_reason_phrase, get_status_code, phrase_for, ReasonPhrase};
use crate::text::{
    decimal, decimal_string, eq_ignore_case, lower, str_eq_ignore_case, to_uppercase, upper,
};
use vstd::prelude::*;
use vstd::string::{StrSliceExecFns, StringExecFns};
use vstd::utf8::encode_utf8;

verus! {

/// One header field: its name and its value.
pub type Field = (Seq<char>, Seq<char>);

/// The mathematical form of a response under construction.
pub struct Response {
    pub status_code: Option<u16>,
    pub reason_phrase: Option<Seq<char>>,
    pub headers: Seq<Field>,
    pub body: Seq<u8>,
}

/// The position of the first field of `headers` whose name is `name` up to
/// the case of ASCII letters, or `headers.len()` where there is none.
pub open spec fn field_index(headers: Seq<Field>, name: Seq<char>) -> int
    decreases headers.len(),
{
    if headers.len() == 0 || eq_ignore_case(headers[0].0, name) {
        0
    } else {
        1 + field_index(headers.drop_first(), name)
    }
}

/// The fields after `name` was given the value `value`: the first field of
/// that name keeps its place and its spelling and takes the value; where
/// there is none, a new field comes last.
pub open spec fn upsert(headers: Seq<Field>, name: Seq<char>, value: Seq<char>) -> Seq<Field> {
    let i = field_index(headers, name);
    if 0 <= i < headers.len() {
        headers.update(i, (headers[i].0, value))
    } else {
        headers.push((name, value))
    }
}

/// The value of the first field named `name`, if there is one.
pub open spec fn field_value(headers: Seq<Field>, name: Seq<char>) -> Option<Seq<char>> {
    let i = field_index(headers, name);
    if 0 <= i < headers.len() {
        Some(headers[i].1)
    } else {
        None
    }
}

/// Whether no two fields have the same name up to the case of ASCII
/// letters.
pub open spec fn distinct_names(headers: Seq<Field>) -> bool {
    forall|i: int, j: int|
        0 <= i < j < headers.len() ==> !eq_ignore_case(
            (#[trigger] headers[i]).0,
            (#[trigger] headers[j]).0,
        )
}

/// `field_index` lies within `0..=headers.len()`, no field before it has
/// the name, and the field at it has the name unless it is
/// `headers.len()`.
pub proof fn lemma_field_index(headers: Seq<Field>, name: Seq<char>)
    ensures
        0 <= field_index(headers, name) <= headers.len(),
        forall|j: int|
            0 <= j < field_index(headers, name) ==> !eq_ignore_case(
                (#[trigger] headers[j]).0,
                name,
            ),
        field_index(headers, name) < headers.len() ==> eq_ignore_case(
            headers[field_index(headers, name)].0,
            name,
        ),
    decreases headers.len(),
{
    if headers.len() == 0 || eq_ignore_case(headers[0].0, name) {
    } else {
        let t = headers.drop_first();
        lemma_field_index(t, name);
        assert forall|j: int| 0 <= j < field_index(headers, name) implies !eq_ignore_case(
            (#[trigger] headers[j]).0,
            name,
        ) by {
            if j > 0 {
                assert(headers[j] == t[j - 1]);
            }
        }
        if field_index(headers, name) < headers.len() {
            assert(headers[field_index(headers, name)] == t[field_index(t, name)]);
        }
    }
}

/// An index with the three properties of `lemma_field_index` is
/// `field_index`.
pub proof fn lemma_field_index_is(headers: Seq<Field>, name: Seq<char>, i: int)
    requires
        0 <= i <= headers.len(),
        forall|j: int| 0 <= j < i ==> !eq_ignore_case((#[trigger] headers[j]).0, name),
        i < headers.len() ==> eq_ignore_case(headers[i].0, name),
    ensures
        field_index(headers, name) == i,
{
    lemma_field_index(headers, name);
    let f = field_index(headers, name);
    if f < i {
        assert(eq_ignore_case(headers[f].0, name));
    } else if i < f {
        assert(eq_ignore_case(headers[i].0, name));
    }
}

/// Giving a field a value keeps the names distinct, leaves the other
/// fields as they were, and the value is then found under that name in any
/// spelling.
pub proof fn lemma_upsert(headers: Seq<Field>, name: Seq<char>, value: Seq<char>)
    requires
        distinct_names(headers),
    ensures
        distinct_names(upsert(headers, name, value)),
        field_value(upsert(headers, name, value), name) == Some(value),
        forall|other: Seq<char>|
            !eq_ignore_case(other, name) ==> field_value(upsert(headers, name, value), other)
                == field_value(headers, other),
{
    lemma_field_index(headers, name);
    let i = field_index(headers, name);
    let after = upsert(headers, name, value);
    assert(distinct_names(after)) by {
        assert forall|a: int, b: int| 0 <= a < b < after.len() implies !eq_ignore_case(
            (#[trigger] after[a]).0,
            (#[trigger] after[b]).0,
        ) by {
            if i < headers.len() {
                assert(after[a].0 == headers[a].0);
                assert(after[b].0 == headers[b].0);
            } else if b < headers.len() {
                assert(after[a].0 == headers[a].0);
                assert(after[b].0 == headers[b].0);
            } else {
                assert(after[a].0 == headers[a].0);
            }
        }
    }
    assert(field_value(after, name) == Some(value)) by {
        assert forall|j: int| 0 <= j < i implies !eq_ignore_case((#[trigger] after[j]).0, name) by {
            assert(after[j].0 == headers[j].0);
        }
        lemma_field_index_is(after, name, i);
    }
    assert forall|other: Seq<char>| !eq_ignore_case(other, name) implies field_value(after, other)
        == field_value(headers, other) by {
        lemma_field_index(headers, other);
        let o = field_index(headers, other);
        assert forall|j: int| 0 <= j < o implies !eq_ignore_case((#[trigger] after[j]).0, other) by {
            assert(after[j].0 == headers[j].0);
        }
        if o < headers.len() {
            assert(after[o].0 == headers[o].0);
            assert(o != i);
            lemma_field_index_is(after, other, o);
        } else {
            if i >= headers.len() {
                assert(after[headers.len() as int].0 == name);
            }
            lemma_field_index_is(after, other, after.len() as int);
        }
    }
}

/// The number of fields of `headers` named `name`, in any case of its ASCII
/// letters.
pub open spec fn occurrences(headers: Seq<Field>, name: Seq<char>) -> nat
    decreases headers.len(),
{
    if headers.len() == 0 {
        0
    } else {
        occurrences(headers.drop_last(), name) + if eq_ignore_case(headers.last().0, name) {
            1nat
        } else {
            0nat
        }
    }
}

/// A name occurs among fields exactly where a field has it, and among
/// fields with distinct names it occurs once at most.
pub proof fn lemma_occurrences(headers: Seq<Field>, name: Seq<char>)
    ensures
        occurrences(headers, name) == 0 <==> forall|i: int|
            0 <= i < headers.len() ==> !eq_ignore_case((#[trigger] headers[i]).0, name),
        occurrences(headers, name) > 0 <==> field_value(headers, name) is Some,
        distinct_names(headers) ==> occurrences(headers, name) <= 1,
    decreases headers.len(),
{
    lemma_field_index(headers, name);
    if headers.len() > 0 {
        let front = headers.drop_last();
        lemma_occurrences(front, name);
        assert forall|i: int| 0 <= i < front.len() implies front[i] == headers[i] by {}
        if occurrences(headers, name) == 0 {
            assert forall|i: int| 0 <= i < headers.len() implies !eq_ignore_case(
                (#[trigger] headers[i]).0,
                name,
            ) by {
                if i < front.len() {
                    assert(front[i] == headers[i]);
                }
            }
        } else if occurrences(front, name) > 0 {
            let i = choose|i: int| 0 <= i < front.len() && eq_ignore_case(front[i].0, name);
            assert(eq_ignore_case(headers[i].0, name));
        } else {
            assert(eq_ignore_case(headers[headers.len() - 1].0, name));
        }
        if distinct_names(headers) {
            assert(distinct_names(front)) by {
                assert forall|i: int, j: int| 0 <= i < j < front.len() implies !eq_ignore_case(
                    (#[trigger] front[i]).0,
                    (#[trigger] front[j]).0,
                ) by {
                    assert(!eq_ignore_case(headers[i].0, headers[j].0));
                }
            }
            if eq_ignore_case(headers.last().0, name) && occurrences(front, name) > 0 {
                let i = choose|i: int| 0 <= i < front.len() && eq_ignore_case(front[i].0, name);
                assert(!eq_ignore_case(headers[i].0, headers[headers.len() - 1].0));
            }
        }
    }
}

/// After a field was given a value, its name occurs exactly once, with that
/// value, and every other name occurs as often as before.
pub proof fn lemma_upsert_once(headers: Seq<Field>, name: Seq<char>, value: Seq<char>)
    requires
        distinct_names(headers),
    ensures
        occurrences(upsert(headers, name, value), name) == 1,
        field_value(upsert(headers, name, value), name) == Some(value),
        forall|other: Seq<char>|
            !eq_ignore_case(other, name) ==> occurrences(upsert(headers, name, value), other)
                == occurrences(headers, other),
{
    let after = upsert(headers, name, value);
    lemma_upsert(headers, name, value);
    lemma_occurrences(after, name);
    assert forall|other: Seq<char>| !eq_ignore_case(other, name) implies occurrences(after, other)
        == occurrences(headers, other) by {
        lemma_occurrences(after, other);
        lemma_occurrences(headers, other);
    }
}

/// Giving a field the value that it has changes nothing.
pub proof fn lemma_upsert_twice(headers: Seq<Field>, name: Seq<char>, value: Seq<char>)
    ensures
        upsert(upsert(headers, name, value), name, value) == upsert(headers, name, value),
{
    lemma_field_index(headers, name);
    let i = field_index(headers, name);
    let after = upsert(headers, name, value);
    assert forall|j: int| 0 <= j < i implies !eq_ignore_case((#[trigger] after[j]).0, name) by {
        assert(after[j].0 == headers[j].0);
    }
    lemma_field_index_is(after, name, i);
    assert(upsert(after, name, value) =~= after);
}

/// The header lines of a response, each ended by CR LF.
pub open spec fn header_lines(headers: Seq<Field>) -> Seq<char>
    decreases headers.len(),
{
    if headers.len() == 0 {
        Seq::empty()
    } else {
        header_lines(headers.drop_last()) + headers.last().0 + ": "@ + headers.last().1 + "\r\n"@
    }
}

/// The status line of a response with status code `code`, ended by CR LF.
/// The reason phrase and the space before it are left out where there is
/// none.
pub open spec fn status_line(code: u16, reason_phrase: Option<Seq<char>>) -> Seq<char> {
    "HTTP/1.1 "@ + decimal(code as nat) + match reason_phrase {
        Some(phrase) => " "@ + phrase,
        None => Seq::empty(),
    } + "\r\n"@
}

/// The bytes of a response on the wire. A response with status 404 is its
/// status line and an empty line; every other is its status line, its
/// header lines, an empty line and its body.
pub open spec fn wire_form(w: Response) -> Seq<u8>
    recommends
        w.status_code is Some,
{
    let code = w.status_code->0;
    if code == 404 {
        encode_utf8(status_line(code, w.reason_phrase) + "\r\n"@)
    } else {
        encode_utf8(status_line(code, w.reason_phrase) + header_lines(w.headers) + "\r\n"@)
            + w.body
    }
}

/// The names of `methods` in capitals, with `", "` between them.
pub open spec fn allow_value(methods: Seq<HttpMethod>) -> Seq<char>
    decreases methods.len(),
{
    if methods.len() == 0 {
        Seq::empty()
    } else if methods.len() == 1 {
        upper(methods[0].name())
    } else {
        allow_value(methods.drop_last()) + ", "@ + upper(methods.last().name())
    }
}

/// The characters of each name and value of `headers`.
pub open spec fn fields_of(headers: Seq<(String, String)>) -> Seq<Field> {
    Seq::new(headers.len(), |i: int| (headers[i].0@, headers[i].1@))
}

#[derive(Debug)]
pub struct ResponseWriter {
    status_code: Option<u16>,
    reason_phrase: Option<String>,
    headers: Vec<(String, String)>,
    body: Vec<u8>,
}

impl View for ResponseWriter {
    type V = Response;

    closed spec fn view(&self) -> Response {
        Response {
            status_code: self.status_code,
            reason_phrase: match self.reason_phrase {
                Some(phrase) => Some(phrase@),
                None => None,
            },
            headers: fields_of(self.headers@),
            body: self.body@,
        }
    }
}

impl ResponseWriter {
    /// No two fields of a response have the same name up to the case of
    /// ASCII letters: a name occurs once or not at all.
    #[verifier::type_invariant]
    pub open spec fn distinct(self) -> bool {
        distinct_names(self@.headers)
    }

    fn new(status_code: Option<u16>, reason_phrase: Option<String>) -> (w: Self)
        ensures
            w@ == (Response {
                status_code,
                reason_phrase: match reason_phrase {
                    Some(phrase) => Some(phrase@),
                    None => None,
                },
                headers: Seq::empty(),
                body: Seq::empty(),
            }),
    {
        let w = Self { status_code, reason_phrase, headers: Vec::new(), body: Vec::new() };
        proof {
            assert(w@.headers =~= Seq::empty());
        }
        w
    }

    /// A response with no status, no header field and an empty body.
    pub fn new_empty() -> (w: Self)
        ensures
            w@ == (Response {
                status_code: None,
                reason_phrase: None,
                headers: Seq::empty(),
                body: Seq::empty(),
            }),
    {
        Self::new(None, None)
    }

    pub fn get_status_code(&self) -> (code: Option<u16>)
        ensures
            code == self@.status_code,
    {
        self.status_code
    }

    /// Sets the status code, and with it the reason phrase that the
    /// registry holds for it; a code that the registry does not know has no
    /// phrase.
    pub fn set_status_code(&mut self, status_code: u16)
        ensures
            final(self)@ == (Response {
                status_code: Some(status_code),
                reason_phrase: match phrase_for(status_code) {
                    Some(phrase) => Some(phrase.text()),
                    None => None,
                },
                ..old(self)@
            }),
    {
        proof {
            use_type_invariant(&*self);
        }
        self.status_code = Some(status_code);
        self.reason_phrase = match get_reason_phrase(status_code) {
            Some(phrase) => Some(phrase.to_string()),
            None => None,
        };
    }

    /// Sets the reason phrase, and with it the status code that it belongs
    /// to.
    pub fn set_reason_phrase(&mut self, reason_phrase: ReasonPhrase)
        ensures
            final(self)@ == (Response {
                status_code: Some(reason_phrase.code()),
                reason_phrase: Some(reason_phrase.text()),
                ..old(self)@
            }),
    {
        proof {
            use_type_invariant(&*self);
        }
        self.status_code = Some(get_status_code(reason_phrase));
        self.reason_phrase = Some(reason_phrase.to_string());
    }

    /// Sets the status code and the reason phrase as given, whether or not
    /// they belong together.
    pub fn set_status_line(&mut self, status_code: u16, reason_phrase: String)
        ensures
            final(self)@ == (Response {
                status_code: Some(status_code),
                reason_phrase: Some(reason_phrase@),
                ..old(self)@
            }),
    {
        proof {
            use_type_invariant(&*self);
        }
        self.status_code = Some(status_code);
        self.reason_phrase = Some(reason_phrase);
    }

    /// The position of the first field named `name`, or the number of
    /// fields.
    fn find_field(&self, name: &str) -> (i: usize)
        ensures
            i == field_index(self@.headers, name@),
            i <= self.headers@.len(),
    {
        let mut i: usize = 0;
        while i < self.headers.len() && !str_eq_ignore_case(self.headers[i].0.as_str(), name)
            invariant
                i <= self.headers@.len(),
                forall|j: int|
                    0 <= j < i ==> !eq_ignore_case((#[trigger] fields_of(self.headers@)[j]).0, name@),
            decreases self.headers@.len() - i,
        {
            i += 1;
        }
        proof {
            lemma_field_index_is(self@.headers, name@, i as int);
        }
        i
    }

    /// Gives the field `k` the value `v`. A field of that name, in any
    /// case of its ASCII letters, keeps its place and takes the value; where
    /// there is none, the field is added after the others.
    pub fn add_header(&mut self, k: String, v: String)
        ensures
            final(self)@ == (Response { headers: upsert(old(self)@.headers, k@, v@), ..old(self)@ }),
            distinct_names(old(self)@.headers),
            distinct_names(final(self)@.headers),
            occurrences(final(self)@.headers, k@) == 1,
            field_value(final(self)@.headers, k@) == Some(v@),
    {
        proof {
            use_type_invariant(&*self);
            lemma_upsert(self@.headers, k@, v@);
            lemma_upsert_once(self@.headers, k@, v@);
        }
        let i = self.find_field(k.as_str());
        let mut taken = ResponseWriter::new(None, None);
        std::mem::swap(self, &mut taken);
        let ResponseWriter { status_code, reason_phrase, mut headers, body } = taken;
        if i < headers.len() {
            headers[i].1 = v;
        } else {
            headers.push((k, v));
        }
        proof {
            assert(fields_of(headers@) =~= upsert(old(self)@.headers, k@, v@));
        }
        *self = ResponseWriter { status_code, reason_phrase, headers, body };
    }

    /// Sets the field `Allow` to the names of `http_methods` in capitals,
    /// separated by a comma and a space. The response then has the field
    /// exactly once.
    pub fn add_allow_header(&mut self, http_methods: Vec<HttpMethod>)
        ensures
            final(self)@ == (Response {
                headers: upsert(old(self)@.headers, "Allow"@, allow_value(http_methods@)),
                ..old(self)@
            }),
            distinct_names(final(self)@.headers),
            occurrences(final(self)@.headers, "Allow"@) == 1,
    {
        let mut value = String::new();
        let mut i: usize = 0;
        while i < http_methods.len()
            invariant
                i <= http_methods@.len(),
                value@ == allow_value(http_methods@.take(i as int)),
            decreases http_methods@.len() - i,
        {
            proof {
                assert(http_methods@.take(i + 1).drop_last() =~= http_methods@.take(i as int));
            }
            if i > 0 {
                value.append(", ");
            }
            let name = to_uppercase(http_methods[i].to_string().as_str());
            value.append(name.as_str());
            i += 1;
            proof {
                let taken = http_methods@.take(i as int);
                assert(taken.last() == http_methods@[i - 1]);
                if i == 1 {
                    assert(taken[0] == http_methods@[0]);
                    assert(value@ =~= upper(http_methods@[0].name()));
                }
            }
        }
        proof {
            assert(http_methods@.take(http_methods@.len() as int) =~= http_methods@);
        }
        self.add_header("Allow".to_owned(), value);
    }

    /// The value of the field `Content-Type`, whatever the case of its
    /// name.
    pub fn get_content_type_header(&self) -> (r: Option<&str>)
        ensures
            match r {
                Some(s) => field_value(self@.headers, "content-type"@) == Some(s@),
                None => field_value(self@.headers, "content-type"@) is None,
            },
    {
        let i = self.find_field("content-type");
        if i < self.headers.len() {
            Some(self.headers[i].1.as_str())
        } else {
            None
        }
    }

    /// Sets the field `Content-Encoding`: where the response has the field,
    /// it keeps its place and takes the value; where it has none, the field
    /// comes last. The response then has the field exactly once.
    pub fn add_content_encoding_header(&mut self, content_encoding: &str)
        ensures
            final(self)@ == (Response {
                headers: upsert(old(self)@.headers, "Content-Encoding"@, content_encoding@),
                ..old(self)@
            }),
            distinct_names(final(self)@.headers),
            occurrences(final(self)@.headers, "Content-Encoding"@) == 1,
            field_value(final(self)@.headers, "Content-Encoding"@) == Some(content_encoding@),
    {
        self.add_header("Content-Encoding".to_owned(), content_encoding.to_owned());
    }

    fn add_content_type_header(&mut self, content_type: &str)
        ensures
            final(self)@ == (Response {
                headers: upsert(old(self)@.headers, "Content-Type"@, content_type@),
                ..old(self)@
            }),
            distinct_names(final(self)@.headers),
            occurrences(final(self)@.headers, "Content-Type"@) == 1,
            field_value(final(self)@.headers, "Content-Type"@) == Some(content_type@),
    {
        self.add_header("Content-Type".to_owned(), content_type.to_owned());
    }

    fn add_content_length_header(&mut self)
        ensures
            final(self)@ == (Response {
                headers: upsert(
                    old(self)@.headers,
                    "Content-Length"@,
                    decimal(old(self)@.body.len()),
                ),
                ..old(self)@
            }),
            distinct_names(old(self)@.headers),
            distinct_names(final(self)@.headers),
            occurrences(final(self)@.headers, "Content-Length"@) == 1,
            field_value(final(self)@.headers, "Content-Length"@) == Some(
                decimal(old(self)@.body.len()),
            ),
    {
        let length = decimal_string(self.body.len());
        self.add_header("Content-Length".to_owned(), length);
    }

    pub fn get_body(&self) -> (body: &[u8])
        ensures
            body@ == self@.body,
    {
        self.body.as_slice()
    }

    /// Replaces the body, and sets `Content-Type` to `content_type` and
    /// `Content-Length` to the body's length. The response then has each of
    /// the two fields exactly once.
    pub fn set_body(&mut self, body: Vec<u8>, content_type: &str)
        ensures
            final(self)@ == (Response {
                headers: upsert(
                    upsert(old(self)@.headers, "Content-Type"@, content_type@),
                    "Content-Length"@,
                    decimal(body@.len()),
                ),
                body: body@,
                ..old(self)@
            }),
            distinct_names(final(self)@.headers),
            occurrences(final(self)@.headers, "Content-Type"@) == 1,
            field_value(final(self)@.headers, "Content-Type"@) == Some(content_type@),
            occurrences(final(self)@.headers, "Content-Length"@) == 1,
            field_value(final(self)@.headers, "Content-Length"@) == Some(decimal(body@.len())),
    {
        proof {
            use_type_invariant(&*self);
        }
        self.body = body;
        self.add_content_type_header(content_type);
        proof {
            reveal_strlit("Content-Type");
            reveal_strlit("Content-Length");
            assert(!eq_ignore_case("Content-Type"@, "Content-Length"@)) by {
                assert(lower("Content-Type"@).len() != lower("Content-Length"@).len());
            }
            lemma_upsert_once(self@.headers, "Content-Length"@, decimal(self@.body.len()));
            lemma_upsert(self@.headers, "Content-Length"@, decimal(self@.body.len()));
        }
        self.add_content_length_header();
        proof {
            assert(field_value(self@.headers, "Content-Type"@) == Some(content_type@));
            assert(occurrences(self@.headers, "Content-Type"@) == 1);
        }
    }

    /// Replaces the body by the bytes of `body`, as `text/plain`.
    pub fn set_body_str(&mut self, body: &str)
        ensures
            final(self)@ == (Response {
                headers: upsert(
                    upsert(old(self)@.headers, "Content-Type"@, "text/plain"@),
                    "Content-Length"@,
                    decimal(encode_utf8(body@).len()),
                ),
                body: encode_utf8(body@),
                ..old(self)@
            }),
            distinct_names(final(self)@.headers),
            occurrences(final(self)@.headers, "Content-Type"@) == 1,
            occurrences(final(self)@.headers, "Content-Length"@) == 1,
    {
        self.set_body(body.as_bytes_vec(), "text/plain");
    }

    /// The response as it goes over the wire. A status must have been set.
    pub fn write(self) -> (bytes: Vec<u8>)
        requires
            self@.status_code is Some,
        ensures
            bytes@ == wire_form(self@),
    {
        let status_code = match self.status_code {
            Some(code) => code,
            None => 0,
        };
        let mut head = "HTTP/1.1 ".to_owned();
        head.append(decimal_string(status_code as usize).as_str());
        match &self.reason_phrase {
            Some(reason_phrase) => {
                head.append(" ");
                head.append(reason_phrase.as_str());
            },
            None => {},
        }
        head.append("\r\n");
        proof {
            assert(head@ =~= status_line(status_code, self@.reason_phrase));
        }
        if status_code == 404 {
            head.append("\r\n");
            return head.as_str().as_bytes_vec();
        }
        let mut i: usize = 0;
        while i < self.headers.len()
            invariant
                i <= self.headers@.len(),
                head@ == status_line(status_code, self@.reason_phrase) + header_lines(
                    self@.headers.take(i as int),
                ),
            decreases self.headers@.len() - i,
        {
            proof {
                assert(self@.headers.take(i + 1).drop_last() =~= self@.headers.take(i as int));
                assert(self@.headers.take(i + 1).last() == (
                    self.headers@[i as int].0@,
                    self.headers@[i as int].1@,
                ));
            }
            let ghost before = head@;
            head.append(self.headers[i].0.as_str());
            head.append(": ");
            head.append(self.headers[i].1.as_str());
            head.append("\r\n");
            i += 1;
            proof {
                assert(head@ =~= status_line(status_code, self@.reason_phrase) + header_lines(
                    self@.headers.take(i as int),
                ));
            }
        }
        proof {
            assert(self@.headers.take(self.headers@.len() as int) =~= self@.headers);
        }
        head.append("\r\n");
        proof {
            assert(head@ =~= status_line(status_code, self@.reason_phrase) + header_lines(
                self@.headers,
            ) + "\r\n"@);
        }
        let mut resp = head.as_str().as_bytes_vec();
        let mut body = self.body;
        resp.append(&mut body);
        resp
    }
}

} // verus!
