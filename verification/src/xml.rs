//! XML packer: one-level `<xml>` bodies out, XML documents in.
//!
//! Packing writes `<xml>` around one element per entry, in key order:
//! numbers (and strings that read as numbers) as plain text, other scalars
//! in CDATA (`true` as `1`, `false` and `null` as nothing). Nested arrays and
//! objects cannot be written and are refused.
//!
//! Unpacking reads the document into a value: leaf text stays a string,
//! repeated sibling names become an array, an element without text is an
//! empty object, attributes are dropped and entity references are resolved.

use vstd::prelude::*;
use crate::error::ArtfulError;
use crate::json::{JsonMap, JsonValue, JsonView, map_get, map_insert, law_map_insert_twice, keys_sorted, key_lt, lower_bound, lemma_lower_bound};
use crate::text::{chars_of, push_str, push_char, lower, lower_char};
use quick_xml::events::Event;
use crate::xml::XmlKind::{Start, End, Empty, Text, CData, Ref, Skip, Eof, Failure};

verus! {

/// `<![CDATA[s]]>`.
pub open spec fn cdata(s: Seq<char>) -> Seq<char> {
    "<![CDATA["@ + s + "]]>"@
}

/// ASCII decimal digit.
pub open spec fn is_digit(c: char) -> bool {
    '0' <= c <= '9'
}

/// `s` equals `word` (lower case) ignoring ASCII case.
pub open spec fn eq_ignore_case(s: Seq<char>, word: Seq<char>) -> bool {
    s.len() == word.len() && forall|i: int| 0 <= i < s.len() ==> lower(#[trigger] s[i]) == word[i]
}

/// Count of leading digits of `s` from `i` on.
pub open spec fn digits_from(s: Seq<char>, i: int) -> int
    decreases s.len() - i,
{
    if 0 <= i < s.len() && is_digit(s[i]) {
        1 + digits_from(s, i + 1)
    } else {
        0
    }
}

/// A decimal floating-point text after its sign: digits, optionally a point
/// and more digits, optionally an exponent with optional sign and digits.
/// A point must follow at least one digit (`.5` is not a number here).
pub open spec fn decimal_body(s: Seq<char>) -> bool {
    let a = digits_from(s, 0);
    a > 0 && {
        let p = if a < s.len() && s[a] == '.' {
            a + 1 + digits_from(s, a + 1)
        } else {
            a
        };
        p == s.len() || ((s[p] == 'e' || s[p] == 'E') && {
            let q = if p + 1 < s.len() && (s[p + 1] == '+' || s[p + 1] == '-') {
                p + 2
            } else {
                p + 1
            };
            digits_from(s, q) > 0 && q + digits_from(s, q) == s.len()
        })
    }
}

/// Whether a string reads as a number: an optional sign, then `inf`,
/// `infinity`, `nan` (any case) or a decimal text.
pub open spec fn numeric_text(s: Seq<char>) -> bool {
    let t = if s.len() > 0 && (s[0] == '+' || s[0] == '-') {
        s.drop_first()
    } else {
        s
    };
    eq_ignore_case(t, "inf"@) || eq_ignore_case(t, "infinity"@) || eq_ignore_case(t, "nan"@)
        || decimal_body(t)
}

/// The text inside the element written for a scalar.
pub open spec fn xml_inner(v: JsonView) -> Seq<char> {
    match v {
        JsonView::Number(t) => t,
        JsonView::Str(s) => if numeric_text(s) {
            s
        } else {
            cdata(s)
        },
        JsonView::Bool(b) => if b {
            cdata("1"@)
        } else {
            cdata(""@)
        },
        _ => cdata(""@),
    }
}

/// `<k>inner</k>`.
pub open spec fn xml_element(k: Seq<char>, v: JsonView) -> Seq<char> {
    "<"@ + k + ">"@ + xml_inner(v) + "</"@ + k + ">"@
}

/// Whether a value is an array or an object.
pub open spec fn is_container(v: JsonView) -> bool {
    v is Array || v is Object
}

/// The elements of entries `i..`.
pub open spec fn xml_elements(o: Seq<(Seq<char>, JsonView)>, i: int) -> Seq<char>
    decreases o.len() - i,
{
    if i < 0 || i >= o.len() {
        Seq::empty()
    } else {
        xml_element(o[i].0, o[i].1) + xml_elements(o, i + 1)
    }
}

/// The packed document, or `None` when a value is nested.
pub open spec fn xml_pack_spec(o: Seq<(Seq<char>, JsonView)>) -> Option<Seq<char>> {
    if exists|i: int| 0 <= i < o.len() && is_container(#[trigger] o[i].1) {
        None
    } else {
        Some("<xml>"@ + xml_elements(o, 0) + "</xml>"@)
    }
}

fn is_word(s: &[char], from: usize, word: &str) -> (b: bool)
    requires
        from <= s@.len(),
    ensures
        b == eq_ignore_case(s@.skip(from as int), word@),
{
    let w = chars_of(word);
    if s.len() - from != w.len() {
        return false;
    }
    let mut i: usize = 0;
    while i < w.len()
        invariant
            w@ == word@,
            s@.len() - from == w@.len(),
            from <= s@.len(),
            s@.len() == s.len(),
            0 <= i <= w@.len(),
            forall|j: int| 0 <= j < i ==> lower(#[trigger] s@.skip(from as int)[j]) == w@[j],
        decreases w@.len() - i,
    {
        if lower_char(s[from + i]) != w[i] {
            assert(s@.skip(from as int)[i as int] == s@[from + i]);
            return false;
        }
        assert(s@.skip(from as int)[i as int] == s@[from + i]);
        i = i + 1;
    }
    true
}

fn count_digits(s: &[char], i: usize) -> (n: usize)
    requires
        i <= s@.len(),
    ensures
        n == digits_from(s@, i as int),
        i + n <= s@.len(),
{
    let mut j = i;
    while j < s.len() && s[j] >= '0' && s[j] <= '9'
        invariant
            i <= j <= s@.len(),
            digits_from(s@, i as int) == (j - i) + digits_from(s@, j as int),
        decreases s@.len() - j,
    {
        j = j + 1;
    }
    j - i
}

proof fn lemma_skip_digits(s: Seq<char>, from: int, i: int)
    requires
        0 <= from <= s.len(),
        0 <= i,
    ensures
        digits_from(s.skip(from), i) == digits_from(s, from + i),
    decreases s.len() - from - i,
{
    if 0 <= i < s.len() - from && is_digit(s[from + i]) {
        lemma_skip_digits(s, from, i + 1);
    }
}

/// Whether `s` reads as a number; see [`numeric_text`].
#[verifier::spinoff_prover]
#[verifier::rlimit(40)]
pub fn is_numeric_text(s: &str) -> (b: bool)
    ensures
        b == numeric_text(s@),
{
    let cs = chars_of(s);
    let from: usize = if cs.len() > 0 && (cs[0] == '+' || cs[0] == '-') {
        1
    } else {
        0
    };
    let ghost t = cs@.skip(from as int);
    assert(from == 1 ==> t =~= cs@.drop_first());
    assert(from == 0 ==> t =~= cs@);
    if is_word(&cs, from, "inf") || is_word(&cs, from, "infinity") || is_word(&cs, from, "nan") {
        return true;
    }
    proof {
        lemma_skip_digits(cs@, from as int, 0);
    }
    let a = count_digits(&cs, from);
    if a == 0 {
        return false;
    }
    let mut p = from + a;
    if p < cs.len() && cs[p] == '.' {
        proof {
            lemma_skip_digits(cs@, from as int, a + 1);
        }
        p = p + 1 + count_digits(&cs, p + 1);
    }
    if p == cs.len() {
        return true;
    }
    if !(cs[p] == 'e' || cs[p] == 'E') {
        return false;
    }
    let q = if p + 1 < cs.len() && (cs[p + 1] == '+' || cs[p + 1] == '-') {
        p + 2
    } else {
        p + 1
    };
    proof {
        lemma_skip_digits(cs@, from as int, q - from);
    }
    let d = count_digits(&cs, q);
    d > 0 && q + d == cs.len()
}

/// Whether a value is written as plain text rather than CDATA.
pub fn is_numeric(value: &JsonValue) -> (b: bool)
    ensures
        b == (value@ is Number || (value@ is Str && numeric_text(value@->Str_0))),
{
    match value {
        JsonValue::Number(_) => true,
        JsonValue::String(s) => is_numeric_text(s.as_str()),
        _ => false,
    }
}

/// What refusing a nested value says.
pub open spec fn nested_value_message() -> Seq<char> {
    "XmlPacker 仅支持一维标量"@
}

/// The element written for one entry.
pub fn render_entry(key: &str, value: &JsonValue) -> (r: Result<String, ArtfulError>)
    ensures
        is_container(value@) ==> (r matches Err(ArtfulError::XmlSerializeError { message, source: None })
            && message@ == nested_value_message()),
        !is_container(value@) ==> (r matches Ok(t) && t@ == xml_element(key@, value@)),
{
    match value {
        JsonValue::Array(_) | JsonValue::Object(_) => {
            let message = "XmlPacker 仅支持一维标量";
            return Err(ArtfulError::XmlSerializeError { message: message.to_owned(), source: None });
        },
        _ => {},
    }
    let mut out = String::new();
    push_str(&mut out, "<");
    push_str(&mut out, key);
    push_str(&mut out, ">");
    if is_numeric(value) {
        match value {
            JsonValue::Number(n) => push_str(&mut out, n.as_str()),
            JsonValue::String(s) => push_str(&mut out, s.as_str()),
            _ => {},
        }
    } else {
        push_str(&mut out, "<![CDATA[");
        match value {
            JsonValue::String(s) => push_str(&mut out, s.as_str()),
            JsonValue::Bool(b) => {
                if *b {
                    push_str(&mut out, "1");
                } else {
                    push_str(&mut out, "");
                }
            },
            _ => push_str(&mut out, ""),
        }
        push_str(&mut out, "]]>");
    }
    push_str(&mut out, "</");
    push_str(&mut out, key);
    push_str(&mut out, ">");
    assert(out@ =~= xml_element(key@, value@));
    Ok(out)
}

/// The XML packer.
#[derive(Debug, Clone, Copy, Default)]
pub struct XmlPacker;

impl XmlPacker {
    /// Writes `data` as a one-level `<xml>` document; refuses nested values.
    pub fn pack(&self, data: &JsonMap, params: &JsonMap) -> (r: Result<String, ArtfulError>)
        ensures
            match xml_pack_spec(data@) {
                Some(t) => r matches Ok(s) && s@ == t,
                None => r matches Err(ArtfulError::XmlSerializeError { message, source: None })
                    && message@ == nested_value_message(),
            },
    {
        let mut out = String::new();
        push_str(&mut out, "<xml>");
        let ghost dv = data@;
        let n = data.len();
        let mut i: usize = 0;
        while i < n
            invariant
                0 <= i <= n,
                n == dv.len(),
                dv == data@,
                out@ + xml_elements(dv, i as int) == "<xml>"@ + xml_elements(dv, 0),
                forall|j: int| 0 <= j < i ==> !is_container(#[trigger] dv[j].1),
            decreases n - i,
        {
            let (k, v) = data.entry_at(i);
            match render_entry(k.as_str(), v) {
                Ok(t) => {
                    let ghost before = out@;
                    push_str(&mut out, t.as_str());
                    assert(before + xml_elements(dv, i as int) =~= out@ + xml_elements(dv, i + 1));
                },
                Err(e) => {
                    return Err(e);
                },
            }
            i = i + 1;
        }
        assert(xml_elements(dv, i as int) =~= Seq::<char>::empty());
        push_str(&mut out, "</xml>");
        assert(out@ =~= "<xml>"@ + xml_elements(dv, 0) + "</xml>"@);
        Ok(out)
    }
}


/// The kinds of events read from an XML document.
#[derive(PartialEq, Eq, Structural, Clone, Copy, Debug)]
pub enum XmlKind {
    /// `<name>`; the text is the name.
    Start,
    /// `</name>`; the text is the name.
    End,
    /// `<name/>`; the text is the name.
    Empty,
    /// Character data; the text is the data as written.
    Text,
    /// `<![CDATA[...]]>`; the text is the content.
    CData,
    /// `&name;`; the text is the name.
    Ref,
    /// A comment, declaration, processing instruction or doctype.
    Skip,
    /// The end of the document.
    Eof,
    /// The reader failed; the text is its message.
    Failure,
}

/// One event read from an XML document.
pub struct XmlToken {
    pub kind: XmlKind,
    pub text: String,
}

impl XmlToken {
    pub open spec fn view(&self) -> (XmlKind, Seq<char>) {
        (self.kind, self.text@)
    }

    /// A token of the given kind and text.
    pub fn new(kind: XmlKind, text: String) -> (t: XmlToken)
        ensures
            t@ == (kind, text@),
    {
        XmlToken { kind, text }
    }
}

/// The views of a sequence of tokens.
pub open spec fn tokens_view(t: Seq<XmlToken>) -> Seq<(XmlKind, Seq<char>)> {
    Seq::new(t.len(), |i: int| t[i]@)
}

/// Whether a kind ends the event stream.
pub open spec fn is_terminal(k: XmlKind) -> bool {
    k == Eof || k == Failure
}

/// The stream ends with one end-of-document or failure event, and has no
/// other such event before it.
pub open spec fn stream_shape(s: Seq<(XmlKind, Seq<char>)>) -> bool {
    s.len() > 0 && is_terminal(s.last().0) && forall|i: int| 0 <= i < s.len() - 1 ==> !is_terminal(#[trigger] s[i].0)
}

#[verifier::external_type_specification]
#[verifier::external_body]
#[verifier::reject_recursive_types(R)]
pub struct ExXmlReader<R>(quick_xml::Reader<R>);

/// The events quick-xml reads from a document, up to and including the end
/// of the document or the first failure.
pub uninterp spec fn xml_events(data: Seq<char>) -> Seq<(XmlKind, Seq<char>)>;

/// The events a reader has yet to hand out.
pub uninterp spec fn xml_pending(r: quick_xml::Reader<&[u8]>) -> Seq<(XmlKind, Seq<char>)>;

/// Opens a reader on `data` (quick-xml's `Reader::from_str`). The contract
/// states that the reader will hand out the document's events, a function
/// of the text alone, and that they come to an end: an end-of-document event
/// or a failure, each a reader on a slice reaches after finitely many reads.
#[verifier::external_body]
fn xml_reader(data: &str) -> (r: quick_xml::Reader<&[u8]>)
    ensures
        xml_pending(r) == xml_events(data@),
        stream_shape(xml_pending(r)),
{
    quick_xml::Reader::from_str(data)
}

/// Reads the next event (quick-xml's `Reader::read_event`): element names
/// and reference names as written, text and CDATA content with line ends
/// normalized as XML 1.0 reads them; an error becomes a failure event with
/// the error's message. The contract states only that the event handed out
/// is the next pending one and that it is no longer pending.
#[verifier::external_body]
fn xml_next(r: &mut quick_xml::Reader<&[u8]>) -> (t: (XmlKind, String))
    requires
        xml_pending(*old(r)).len() > 0,
    ensures
        (t.0, t.1@) == xml_pending(*old(r))[0],
        xml_pending(*final(r)) == xml_pending(*old(r)).drop_first(),
{
    match r.read_event() {
        Ok(Event::Start(b)) => (Start, b.name().0.into()),
        Ok(Event::End(b)) => (End, b.name().0.into()),
        Ok(Event::Empty(b)) => (Empty, b.name().0.into()),
        Ok(Event::Text(t)) => (Text, t.xml10_content().into()),
        Ok(Event::CData(t)) => (CData, t.xml10_content().into()),
        Ok(Event::GeneralRef(t)) => (Ref, t.into_inner().into()),
        Ok(Event::Eof) => (Eof, "".into()),
        Err(e) => (Failure, e.to_string()),
        _ => (Skip, "".into()),
    }
}


/// The model of an element being read.
pub struct ElemView {
    pub name: Seq<char>,
    pub text: Seq<char>,
    pub first_blank: Option<bool>,
    pub children: Seq<(Seq<char>, JsonView)>,
}

/// Space, tab, carriage return or line feed.
pub open spec fn is_blank_char(c: char) -> bool {
    c == ' ' || c == '\t' || c == '\r' || c == '\n'
}

/// Non-empty and made of blank characters only.
pub open spec fn blank_text(t: Seq<char>) -> bool {
    t.len() > 0 && forall|i: int| 0 <= i < t.len() ==> is_blank_char(#[trigger] t[i])
}

/// Unicode White_Space, as `str::trim` strips it.
pub open spec fn is_white_space(c: char) -> bool {
    ('\u{9}' <= c <= '\u{d}') || c == ' ' || c == '\u{85}' || c == '\u{a0}' || c == '\u{1680}' || (
    '\u{2000}' <= c <= '\u{200a}') || c == '\u{2028}' || c == '\u{2029}' || c == '\u{202f}' || c
        == '\u{205f}' || c == '\u{3000}'
}

/// Empty once trimmed.
pub open spec fn all_white(t: Seq<char>) -> bool {
    forall|i: int| 0 <= i < t.len() ==> is_white_space(#[trigger] t[i])
}

/// A new element.
pub open spec fn new_elem(name: Seq<char>) -> ElemView {
    ElemView { name, text: Seq::empty(), first_blank: None, children: Seq::empty() }
}

/// Direct text joins the element's text; the first direct content, if it is
/// text, records whether it is blank.
pub open spec fn append_text_spec(e: ElemView, t: Seq<char>) -> ElemView {
    if t.len() == 0 {
        e
    } else {
        ElemView {
            first_blank: if e.children.len() == 0 && e.first_blank is None {
                Some(blank_text(t))
            } else {
                e.first_blank
            },
            text: e.text + t,
            ..e
        }
    }
}

/// A child is stored under its name; a second child of the same name turns
/// the entry into an array, later ones are appended.
pub open spec fn insert_child_spec(children: Seq<(Seq<char>, JsonView)>, name: Seq<char>, v: JsonView) -> Seq<(Seq<char>, JsonView)> {
    match map_get(children, name) {
        Some(JsonView::Array(arr)) => map_insert(children, name, JsonView::Array(arr.push(v))),
        Some(prev) => map_insert(children, name, JsonView::Array(seq![prev, v])),
        None => map_insert(children, name, v),
    }
}

/// Adding a child under a name that holds an array appends the child to
/// that array; a name with a non-array value becomes the array of that
/// value and the child; a new name holds the child itself. Other names read
/// as before, and names stay in order.
pub proof fn law_insert_child(
    children: Seq<(Seq<char>, JsonView)>,
    name: Seq<char>,
    v: JsonView,
    other: Seq<char>,
)
    requires
        keys_sorted(children),
    ensures
        keys_sorted(insert_child_spec(children, name, v)),
        map_get(children, name) matches Some(JsonView::Array(arr)) ==> map_get(
            insert_child_spec(children, name, v),
            name,
        ) == Some(JsonView::Array(arr.push(v))),
        map_get(children, name) is None ==> map_get(insert_child_spec(children, name, v), name) == Some(v),
        other != name ==> map_get(insert_child_spec(children, name, v), other) == map_get(children, other),
{
    match map_get(children, name) {
        Some(JsonView::Array(arr)) => {
            crate::json::law_map_insert(children, name, JsonView::Array(arr.push(v)));
        },
        Some(prev) => {
            crate::json::law_map_insert(children, name, JsonView::Array(seq![prev, v]));
        },
        None => {
            crate::json::law_map_insert(children, name, v);
        },
    }
}

/// The children after adding `vs`, in order, under `name`.
pub open spec fn children_after(children: Seq<(Seq<char>, JsonView)>, name: Seq<char>, vs: Seq<JsonView>) -> Seq<
    (Seq<char>, JsonView),
>
    decreases vs.len(),
{
    if vs.len() == 0 {
        children
    } else {
        insert_child_spec(children_after(children, name, vs.drop_last()), name, vs.last())
    }
}

/// Repeated siblings collect into an array: adding two or more children
/// (none of them an array, as element values never are) under a name not
/// yet present leaves under it the array of all of them in document order;
/// other names read as before.
pub proof fn law_siblings_collect(
    children: Seq<(Seq<char>, JsonView)>,
    name: Seq<char>,
    vs: Seq<JsonView>,
    other: Seq<char>,
)
    requires
        keys_sorted(children),
        map_get(children, name) is None,
        vs.len() >= 2,
        forall|i: int| 0 <= i < vs.len() ==> !(#[trigger] vs[i] is Array),
    ensures
        keys_sorted(children_after(children, name, vs)),
        map_get(children_after(children, name, vs), name) == Some(JsonView::Array(vs)),
        other != name ==> map_get(children_after(children, name, vs), other) == map_get(children, other),
    decreases vs.len(),
{
    let d = vs.drop_last();
    let mid = children_after(children, name, d);
    if vs.len() == 2 {
        let one = children_after(children, name, d.drop_last());
        assert(d.drop_last().len() == 0);
        assert(one == children);
        law_insert_child(children, name, d.last(), other);
        assert(map_get(mid, name) == Some(vs[0]));
        assert(!(vs[0] is Array));
        law_insert_child(mid, name, vs.last(), other);
        crate::json::law_map_insert(mid, name, JsonView::Array(seq![vs[0], vs[1]]));
        assert(seq![vs[0], vs[1]] =~= vs);
    } else {
        assert forall|i: int| 0 <= i < d.len() implies !(#[trigger] d[i] is Array) by {
            assert(d[i] == vs[i]);
        }
        law_siblings_collect(children, name, d, other);
        law_insert_child(mid, name, vs.last(), other);
        assert(d.push(vs.last()) =~= vs);
    }
}


/// The element with a child added.
pub open spec fn child_added(e: ElemView, name: Seq<char>, v: JsonView) -> ElemView {
    ElemView { children: insert_child_spec(e.children, name, v), ..e }
}

/// The value of a finished element. The root is an object of its children
/// (its text dropped), or its text when it has no children. Another element
/// is its text when its first direct content is non-blank text, else the
/// object of its children (possibly empty).
pub open spec fn finish_spec(e: ElemView, is_root: bool) -> JsonView {
    if is_root {
        if e.children.len() == 0 {
            if e.text.len() == 0 {
                JsonView::Object(Seq::empty())
            } else {
                JsonView::Str(e.text)
            }
        } else {
            JsonView::Object(e.children)
        }
    } else if e.first_blank == Some(false) {
        JsonView::Str(e.text)
    } else {
        JsonView::Object(e.children)
    }
}

/// The element being read, as the packer keeps it.
pub struct XmlElement {
    name: String,
    text: String,
    first_text_blank: Option<bool>,
    children: JsonMap,
}

impl XmlElement {
    pub closed spec fn view(&self) -> ElemView {
        ElemView {
            name: self.name@,
            text: self.text@,
            first_blank: self.first_text_blank,
            children: self.children@,
        }
    }

    /// An element with no content yet.
    pub fn new(name: String) -> (e: XmlElement)
        ensures
            e@ == new_elem(name@),
    {
        XmlElement { name, text: String::new(), first_text_blank: None, children: JsonMap::new() }
    }

    /// Records direct text; see [`append_text_spec`].
    pub fn append_text(&mut self, text: &str)
        ensures
            final(self)@ == append_text_spec(old(self)@, text@),
    {
        if text.is_empty() {
            return;
        }
        if self.children.is_empty() && self.first_text_blank.is_none() {
            self.first_text_blank = Some(is_blank_text(text));
        }
        push_str(&mut self.text, text);
    }

    /// Adds a child; see [`insert_child_spec`].
    pub fn insert_child(&mut self, name: String, value: JsonValue)
        ensures
            final(self)@ == child_added(old(self)@, name@, value@),
    {
        let _ = self.children.len();
        let ghost c0 = self.children@;
        let key = name.clone();
        let prev = self.children.insert(key, JsonValue::Null);
        let nv = match prev {
            Some(JsonValue::Array(mut arr)) => {
                let ghost av = JsonValue::Array(arr)@;
                let ghost vv = value@;
                arr.push(value);
                let nv = JsonValue::Array(arr);
                proof {
                    if let JsonView::Array(a) = av {
                        if let JsonView::Array(a2) = nv@ {
                            assert(a2 =~= a.push(vv));
                        }
                    }
                }
                nv
            },
            Some(other) => {
                proof {
                    assert(other@ !is Array) by {
                        if let JsonValue::Array(_) = other {
                        }
                    }
                }
                let ghost pv = other@;
                let ghost vv = value@;
                let mut arr: Vec<JsonValue> = Vec::new();
                arr.push(other);
                arr.push(value);
                let nv = JsonValue::Array(arr);
                proof {
                    if let JsonView::Array(a2) = nv@ {
                        assert(a2 =~= seq![pv, vv]);
                    }
                }
                nv
            },
            None => value,
        };
        proof {
            law_map_insert_twice(c0, name@, JsonView::Null, nv@);
        }
        self.children.insert(name, nv);
    }

    /// The element's value; see [`finish_spec`].
    pub fn finish(self, is_root: bool) -> (v: JsonValue)
        ensures
            v@ == finish_spec(self@, is_root),
    {
        if is_root {
            if self.children.is_empty() {
                if self.text.as_str().is_empty() {
                    JsonValue::Object(JsonMap::new())
                } else {
                    JsonValue::String(self.text)
                }
            } else {
                JsonValue::Object(self.children)
            }
        } else if self.first_text_blank == Some(false) {
            JsonValue::String(self.text)
        } else {
            JsonValue::Object(self.children)
        }
    }
}

/// Whether `text` is non-empty and made of spaces, tabs, CR and LF only.
pub fn is_blank_text(text: &str) -> (b: bool)
    ensures
        b == blank_text(text@),
{
    let cs = chars_of(text);
    if cs.len() == 0 {
        return false;
    }
    let mut i: usize = 0;
    while i < cs.len()
        invariant
            cs@ == text@,
            0 <= i <= cs@.len(),
            forall|j: int| 0 <= j < i ==> is_blank_char(#[trigger] cs@[j]),
        decreases cs@.len() - i,
    {
        let c = cs[i];
        if !(c == ' ' || c == '\t' || c == '\r' || c == '\n') {
            return false;
        }
        i = i + 1;
    }
    true
}

fn is_all_white(text: &str) -> (b: bool)
    ensures
        b == all_white(text@),
{
    let cs = chars_of(text);
    let mut i: usize = 0;
    while i < cs.len()
        invariant
            cs@ == text@,
            0 <= i <= cs@.len(),
            forall|j: int| 0 <= j < i ==> is_white_space(#[trigger] cs@[j]),
        decreases cs@.len() - i,
    {
        let c = cs[i];
        if !(('\u{9}' <= c && c <= '\u{d}') || c == ' ' || c == '\u{85}' || c == '\u{a0}' || c == '\u{1680}'
            || ('\u{2000}' <= c && c <= '\u{200a}') || c == '\u{2028}' || c == '\u{2029}' || c == '\u{202f}'
            || c == '\u{205f}' || c == '\u{3000}') {
            return false;
        }
        i = i + 1;
    }
    true
}


/// The value of a digit character in `radix` (10 or 16).
pub open spec fn digit_value(c: char, radix: nat) -> Option<nat> {
    if '0' <= c <= '9' {
        Some((c as nat - 48) as nat)
    } else if radix == 16 && 'a' <= c <= 'f' {
        Some((c as nat - 87) as nat)
    } else if radix == 16 && 'A' <= c <= 'F' {
        Some((c as nat - 55) as nat)
    } else {
        None
    }
}

/// The value of a digit string (empty: zero).
pub open spec fn digits_value(s: Seq<char>, radix: nat) -> Option<nat>
    decreases s.len(),
{
    if s.len() == 0 {
        Some(0)
    } else {
        match (digits_value(s.drop_last(), radix), digit_value(s.last(), radix)) {
            (Some(a), Some(d)) => Some(a * radix + d),
            _ => None,
        }
    }
}

/// An unsigned 32-bit number written as digits only (no sign): at least
/// one digit, with no overflow.
pub open spec fn parse_u32_spec(s: Seq<char>, radix: nat) -> Option<nat> {
    if s.len() == 0 {
        None
    } else {
        match digits_value(s, radix) {
            Some(v) => if v <= 0xffff_ffff {
                Some(v)
            } else {
                None
            },
            None => None,
        }
    }
}

/// XML 1.0 `Char`.
pub open spec fn is_xml_code(c: nat) -> bool {
    c == 9 || c == 10 || c == 13 || (0x20 <= c <= 0xd7ff) || (0xe000 <= c <= 0xfffd) || (0x10000
        <= c <= 0x10ffff)
}

/// The message for a reference that cannot be resolved.
pub open spec fn ref_error(name: Seq<char>) -> Seq<char> {
    "undefined or invalid entity reference: `"@ + name + "`"@
}

/// What `&name;` stands for: the five predefined entities, or a decimal /
/// hexadecimal character reference to an XML character.
pub open spec fn resolve_ref_spec(name: Seq<char>) -> Result<Seq<char>, Seq<char>> {
    if name == "amp"@ {
        Ok("&"@)
    } else if name == "lt"@ {
        Ok("<"@)
    } else if name == "gt"@ {
        Ok(">"@)
    } else if name == "quot"@ {
        Ok("\""@)
    } else if name == "apos"@ {
        Ok("'"@)
    } else if name.len() > 0 && name[0] == '#' {
        let digits = name.drop_first();
        let code = if digits.len() > 0 && (digits[0] == 'x' || digits[0] == 'X') {
            parse_u32_spec(digits.drop_first(), 16)
        } else {
            parse_u32_spec(digits, 10)
        };
        match code {
            Some(c) => if is_xml_code(c) {
                Ok(seq![(c as u32) as char])
            } else {
                Err(ref_error(name))
            },
            None => Err(ref_error(name)),
        }
    } else {
        Err(ref_error(name))
    }
}

/// The value of a non-empty digit string that fits in 32 bits.
pub open spec fn bounded_value(t: Seq<char>, radix: nat) -> Option<nat> {
    match digits_value(t, radix) {
        Some(v) => if v <= 0xffff_ffff {
            Some(v)
        } else {
            None
        },
        None => None,
    }
}

proof fn lemma_digits_value_grows(s: Seq<char>, radix: nat, k: int)
    requires
        radix >= 1,
        0 <= k <= s.len(),
        digits_value(s, radix) is Some,
    ensures
        digits_value(s.take(k), radix) is Some,
        digits_value(s.take(k), radix).unwrap() <= digits_value(s, radix).unwrap(),
    decreases s.len(),
{
    if k < s.len() {
        let t = s.drop_last();
        assert(s.take(k) =~= t.take(k));
        lemma_digits_value_grows(t, radix, k);
        let a = digits_value(t, radix).unwrap();
        let d = digit_value(s.last(), radix).unwrap();
        assert(a <= a * radix + d) by (nonlinear_arith)
            requires
                radix >= 1,
        ;
    } else {
        assert(s.take(k) =~= s);
    }
}

fn digit_of(c: char, radix: u64) -> (r: Option<u64>)
    requires
        radix == 10 || radix == 16,
    ensures
        match r {
            Some(d) => digit_value(c, radix as nat) == Some(d as nat) && d < 16,
            None => digit_value(c, radix as nat) is None,
        },
{
    if c >= '0' && c <= '9' {
        Some((c as u32 - 48) as u64)
    } else if radix == 16 && c >= 'a' && c <= 'f' {
        Some((c as u32 - 87) as u64)
    } else if radix == 16 && c >= 'A' && c <= 'F' {
        Some((c as u32 - 55) as u64)
    } else {
        None
    }
}

/// Reads an unsigned 32-bit number from `s[from..]`; see [`parse_u32_spec`].
fn parse_u32_at(s: &[char], from: usize, radix: u64) -> (r: Option<u32>)
    requires
        from <= s@.len(),
        radix == 10 || radix == 16,
    ensures
        match r {
            Some(v) => parse_u32_spec(s@.skip(from as int), radix as nat) == Some(v as nat),
            None => parse_u32_spec(s@.skip(from as int), radix as nat) is None,
        },
{
    let ghost full = s@.skip(from as int);
    let start = from;
    let ghost t = s@.skip(start as int);
    if start == s.len() {
        return None;
    }
    assert(parse_u32_spec(full, radix as nat) == bounded_value(t, radix as nat));
    let mut acc: u64 = 0;
    let mut over = false;
    let mut i = start;
    assert(t.take(0) =~= Seq::<char>::empty());
    while i < s.len()
        invariant
            start <= i <= s@.len(),
            s@.len() == s.len(),
            t == s@.skip(start as int),
            parse_u32_spec(full, radix as nat) == bounded_value(t, radix as nat),
            full == s@.skip(from as int),
            radix == 10 || radix == 16,
            acc <= 0xffff_ffff,
            digits_value(t.take(i - start), radix as nat) is Some,
            !over ==> digits_value(t.take(i - start), radix as nat) == Some(acc as nat),
            over ==> digits_value(t.take(i - start), radix as nat).unwrap() > 0xffff_ffff,
        decreases s@.len() - i,
    {
        let ghost prefix = t.take(i - start);
        assert(t.take(i + 1 - start).drop_last() =~= prefix);
        assert(t.take(i + 1 - start).last() == s@[i as int]);
        match digit_of(s[i], radix) {
            None => {
                proof {
                    assert(digits_value(t.take(i + 1 - start), radix as nat) is None);
                    if digits_value(t, radix as nat) is Some {
                        lemma_digits_value_grows(t, radix as nat, i + 1 - start);
                    }
                }
                return None;
            },
            Some(d) => {
                if !over {
                    assert(acc * radix + d <= 0xffff_ffff * 16 + 15) by (nonlinear_arith)
                        requires
                            acc <= 0xffff_ffff,
                            radix <= 16,
                            d < 16,
                    ;
                    let next = acc * radix + d;
                    if next > 0xffff_ffff {
                        over = true;
                    } else {
                        acc = next;
                    }
                } else {
                    proof {
                        let a = digits_value(prefix, radix as nat).unwrap();
                        assert(a * radix + d >= a) by (nonlinear_arith)
                            requires
                                radix >= 1,
                        ;
                    }
                }
            },
        }
        i = i + 1;
    }
    assert(t.take(i - start) =~= t);
    if over {
        None
    } else {
        Some(acc as u32)
    }
}

/// The character for a code point (std's `char::from_u32`): there is one
/// exactly for the Unicode scalar values.
#[verifier::external_body]
fn char_from_code(code: u32) -> (r: Option<char>)
    ensures
        r is Some <==> (code < 0xd800 || (0xe000 <= code <= 0x10ffff)),
        r matches Some(c) ==> c as u32 == code,
{
    char::from_u32(code)
}

/// Whether `c` is an XML 1.0 character.
pub fn is_xml_char(c: char) -> (b: bool)
    ensures
        b == is_xml_code(c as nat),
{
    let v = c as u32;
    v == 9 || v == 10 || v == 13 || (0x20 <= v && v <= 0xd7ff) || (0xe000 <= v && v <= 0xfffd) || (
    0x10000 <= v && v <= 0x10ffff)
}

fn ref_error_text(name: &str) -> (m: String)
    ensures
        m@ == ref_error(name@),
{
    let mut m = "undefined or invalid entity reference: `".to_owned();
    push_str(&mut m, name);
    push_str(&mut m, "`");
    m
}

/// Resolves an entity reference; see [`resolve_ref_spec`].
pub fn resolve_general_ref(name: &str) -> (r: Result<String, ArtfulError>)
    ensures
        match resolve_ref_spec(name@) {
            Ok(t) => r matches Ok(s) && s@ == t,
            Err(m) => r matches Err(ArtfulError::XmlDeserializeError { message, source: None }) && message@ == m,
        },
{
    let n = name.to_owned();
    let amp = "amp".to_owned();
    let lt = "lt".to_owned();
    let gt = "gt".to_owned();
    let quot = "quot".to_owned();
    let apos = "apos".to_owned();
    if n == amp {
        return Ok("&".to_owned());
    }
    if n == lt {
        return Ok("<".to_owned());
    }
    if n == gt {
        return Ok(">".to_owned());
    }
    if n == quot {
        return Ok("\"".to_owned());
    }
    if n == apos {
        return Ok("'".to_owned());
    }
    let cs = chars_of(name);
    if !(cs.len() > 0 && cs[0] == '#') {
        return Err(ArtfulError::XmlDeserializeError { message: ref_error_text(name), source: None });
    }
    let ghost digits = cs@.drop_first();
    let code = if cs.len() > 1 && (cs[1] == 'x' || cs[1] == 'X') {
        assert(cs@.skip(2) =~= digits.drop_first());
        parse_u32_at(&cs, 2, 16)
    } else {
        assert(cs@.skip(1) =~= digits);
        parse_u32_at(&cs, 1, 10)
    };
    match code {
        Some(c) => {
            if is_xml_char_code(c) {
                match char_from_code(c) {
                    Some(ch) => {
                        let mut out = String::new();
                        push_char(&mut out, ch);
                        proof {
                            vstd::utf8::char_u32_cast(ch, c);
                        }
                        assert(out@ =~= seq![((c as nat) as u32) as char]);
                        Ok(out)
                    },
                    None => Err(ArtfulError::XmlDeserializeError { message: ref_error_text(name), source: None }),
                }
            } else {
                Err(ArtfulError::XmlDeserializeError { message: ref_error_text(name), source: None })
            }
        },
        None => Err(ArtfulError::XmlDeserializeError { message: ref_error_text(name), source: None }),
    }
}

fn is_xml_char_code(v: u32) -> (b: bool)
    ensures
        b == is_xml_code(v as nat),
{
    v == 9 || v == 10 || v == 13 || (0x20 <= v && v <= 0xd7ff) || (0xe000 <= v && v <= 0xfffd) || (
    0x10000 <= v && v <= 0x10ffff)
}

/// A reading error: its message, and the reader's own message when the
/// reader failed.
pub struct XmlFault {
    pub message: Seq<char>,
    pub source: Option<Seq<char>>,
}

/// What one event leaves: the open elements and the root value so far, or
/// the result of the whole read.
pub enum XmlStep {
    Go(Seq<ElemView>, Option<JsonView>),
    Stop(Result<JsonView, XmlFault>),
}

/// Stop with an error of the packer's own.
pub open spec fn fault(m: Seq<char>) -> XmlStep {
    XmlStep::Stop(Err(XmlFault { message: m, source: None }))
}

/// The message for an end tag that does not close the open element.
pub open spec fn mismatch_message(open: Seq<char>, got: Seq<char>) -> Seq<char> {
    "mismatched end element: expected `"@ + open + "`, got `"@ + got + "`"@
}

/// Text (or a resolved reference) joins the innermost open element; outside
/// every element only white space is allowed.
pub open spec fn text_step(stack: Seq<ElemView>, root: Option<JsonView>, t: Seq<char>, outside: Seq<char>) -> XmlStep {
    if stack.len() > 0 {
        XmlStep::Go(stack.update(stack.len() - 1, append_text_spec(stack.last(), t)), root)
    } else if !all_white(t) {
        fault(outside)
    } else {
        XmlStep::Go(stack, root)
    }
}

/// The value of a finished element goes to its parent, or becomes the root.
pub open spec fn close_step(stack: Seq<ElemView>, root: Option<JsonView>) -> XmlStep {
    let e = stack.last();
    let rest = stack.drop_last();
    let v = finish_spec(e, rest.len() == 0);
    if rest.len() == 0 {
        XmlStep::Go(rest, Some(v))
    } else {
        XmlStep::Go(rest.update(rest.len() - 1, child_added(rest.last(), e.name, v)), root)
    }
}

/// The result at the end of the document.
pub open spec fn eof_result(stack: Seq<ElemView>, root: Option<JsonView>) -> Result<JsonView, XmlFault> {
    if stack.len() > 0 {
        Err(XmlFault { message: "unclosed element(s) remain"@, source: None })
    } else {
        match root {
            Some(v) => Ok(v),
            None => Err(XmlFault { message: "no root element"@, source: None }),
        }
    }
}

/// One event applied to the open elements and the root value.
pub open spec fn xml_step(stack: Seq<ElemView>, root: Option<JsonView>, tok: (XmlKind, Seq<char>)) -> XmlStep {
    let t = tok.1;
    match tok.0 {
        XmlKind::Start => if stack.len() == 0 && root is Some {
            fault("multiple root elements"@)
        } else {
            XmlStep::Go(stack.push(new_elem(t)), root)
        },
        XmlKind::End => if stack.len() == 0 {
            fault("unmatched end element"@)
        } else if stack.last().name != t {
            fault(mismatch_message(stack.last().name, t))
        } else {
            close_step(stack, root)
        },
        XmlKind::Empty => if stack.len() > 0 {
            XmlStep::Go(
                stack.update(stack.len() - 1, child_added(stack.last(), t, JsonView::Object(Seq::empty()))),
                root,
            )
        } else if root is Some {
            fault("multiple root elements"@)
        } else {
            XmlStep::Go(stack, Some(JsonView::Object(Seq::empty())))
        },
        XmlKind::Text => text_step(stack, root, t, "text content outside of root element"@),
        XmlKind::CData => text_step(stack, root, t, "text content outside of root element"@),
        XmlKind::Ref => match resolve_ref_spec(t) {
            Ok(d) => text_step(stack, root, d, "entity reference outside of root element"@),
            Err(m) => fault(m),
        },
        XmlKind::Skip => XmlStep::Go(stack, root),
        XmlKind::Eof => XmlStep::Stop(eof_result(stack, root)),
        XmlKind::Failure => XmlStep::Stop(Err(XmlFault { message: t, source: Some(t) })),
    }
}

/// The result of reading a stream of events from the given state; a stream
/// that runs out reads as one that ends there.
pub open spec fn xml_run(stack: Seq<ElemView>, root: Option<JsonView>, toks: Seq<(XmlKind, Seq<char>)>) -> Result<JsonView, XmlFault>
    decreases toks.len(),
{
    if toks.len() == 0 {
        eof_result(stack, root)
    } else {
        match xml_step(stack, root, toks[0]) {
            XmlStep::Go(s, r) => xml_run(s, r, toks.drop_first()),
            XmlStep::Stop(res) => res,
        }
    }
}

/// What unpacking a document gives: `""` and `"0"` are an empty object,
/// anything else is read from the events quick-xml produces for it.
pub open spec fn xml_unpack_spec(data: Seq<char>) -> Result<JsonView, XmlFault> {
    if data.len() == 0 || data == "0"@ {
        Ok(JsonView::Object(Seq::empty()))
    } else {
        xml_run(Seq::empty(), None, xml_events(data))
    }
}

/// The models of the open elements.
pub open spec fn stack_view(s: Seq<XmlElement>) -> Seq<ElemView> {
    Seq::new(s.len(), |i: int| s[i]@)
}

/// The model of an optional value.
pub open spec fn opt_view(v: Option<JsonValue>) -> Option<JsonView> {
    match v {
        Some(x) => Some(x@),
        None => None,
    }
}

/// The model of an optional text.
pub open spec fn opt_text(v: Option<String>) -> Option<Seq<char>> {
    match v {
        Some(x) => Some(x@),
        None => None,
    }
}

/// Whether a result of the packer is the one the model gives.
pub open spec fn xml_result_is(r: Result<JsonValue, ArtfulError>, m: Result<JsonView, XmlFault>) -> bool {
    match m {
        Ok(v) => r matches Ok(x) && x@ == v,
        Err(f) => r matches Err(ArtfulError::XmlDeserializeError { message, source }) && message@ == f.message
            && opt_text(source) == f.source,
    }
}

fn xml_fault(message: String) -> (r: Result<JsonValue, ArtfulError>)
    ensures
        r matches Err(ArtfulError::XmlDeserializeError { message: m, source: None }) && m@ == message@,
{
    Err(ArtfulError::XmlDeserializeError { message, source: None })
}

fn mismatch_text(open: &str, got: &str) -> (m: String)
    ensures
        m@ == mismatch_message(open@, got@),
{
    let mut m = "mismatched end element: expected `".to_owned();
    push_str(&mut m, open);
    push_str(&mut m, "`, got `");
    push_str(&mut m, got);
    push_str(&mut m, "`");
    m
}

/// Adds text to the innermost open element, or checks text outside them.
fn text_into(stack: &mut Vec<XmlElement>, root: &Option<JsonValue>, t: &str, outside: &str) -> (r: Option<Result<JsonValue, ArtfulError>>)
    ensures
        match text_step(stack_view(old(stack)@), opt_view(*root), t@, outside@) {
            XmlStep::Go(s, rt) => r is None && stack_view(final(stack)@) == s && opt_view(*root) == rt,
            XmlStep::Stop(res) => r matches Some(x) && xml_result_is(x, res),
        },
{
    let ghost sv = stack_view(stack@);
    match stack.pop() {
        Some(mut e) => {
            e.append_text(t);
            stack.push(e);
            assert(stack_view(stack@) =~= sv.update(sv.len() - 1, append_text_spec(sv.last(), t@)));
            None
        },
        None => {
            assert(stack_view(stack@) =~= sv);
            if !is_all_white(t) {
                Some(xml_fault(outside.to_owned()))
            } else {
                None
            }
        },
    }
}

/// Applies one event; see [`xml_step`]. `None` means reading goes on.
pub fn unpack_step(stack: &mut Vec<XmlElement>, root: &mut Option<JsonValue>, tok: XmlToken) -> (r: Option<Result<JsonValue, ArtfulError>>)
    ensures
        match xml_step(stack_view(old(stack)@), opt_view(*old(root)), tok@) {
            XmlStep::Go(s, rt) => r is None && stack_view(final(stack)@) == s && opt_view(*final(root)) == rt,
            XmlStep::Stop(res) => r matches Some(x) && xml_result_is(x, res),
        },
{
    let ghost sv = stack_view(stack@);
    let XmlToken { kind, text } = tok;
    match kind {
        XmlKind::Start => {
            if stack.len() == 0 && root.is_some() {
                return Some(xml_fault("multiple root elements".to_owned()));
            }
            stack.push(XmlElement::new(text));
            assert(stack_view(stack@) =~= sv.push(new_elem(text@)));
            None
        },
        XmlKind::End => {
            match stack.pop() {
                None => Some(xml_fault("unmatched end element".to_owned())),
                Some(e) => {
                    assert(stack_view(stack@) =~= sv.drop_last());
                    if e.name != text {
                        return Some(xml_fault(mismatch_text(e.name.as_str(), text.as_str())));
                    }
                    let name = e.name.clone();
                    let ghost ev = e@;
                    let is_root = stack.len() == 0;
                    let v = e.finish(is_root);
                    match stack.pop() {
                        Some(mut parent) => {
                            parent.insert_child(name, v);
                            stack.push(parent);
                            assert(stack_view(stack@) =~= sv.drop_last().update(
                                sv.drop_last().len() - 1,
                                child_added(sv.drop_last().last(), ev.name, finish_spec(ev, false)),
                            ));
                        },
                        None => {
                            *root = Some(v);
                        },
                    }
                    None
                },
            }
        },
        XmlKind::Empty => {
            match stack.pop() {
                Some(mut parent) => {
                    let ghost tv = text@;
                    parent.insert_child(text, JsonValue::Object(JsonMap::new()));
                    stack.push(parent);
                    assert(stack_view(stack@) =~= sv.update(
                        sv.len() - 1,
                        child_added(sv.last(), tv, JsonView::Object(Seq::empty())),
                    ));
                    None
                },
                None => {
                    assert(stack_view(stack@) =~= sv);
                    if root.is_some() {
                        return Some(xml_fault("multiple root elements".to_owned()));
                    }
                    *root = Some(JsonValue::Object(JsonMap::new()));
                    None
                },
            }
        },
        XmlKind::Text | XmlKind::CData => text_into(stack, root, text.as_str(), "text content outside of root element"),
        XmlKind::Ref => {
            match resolve_general_ref(text.as_str()) {
                Ok(d) => text_into(stack, root, d.as_str(), "entity reference outside of root element"),
                Err(e) => Some(Err(e)),
            }
        },
        XmlKind::Skip => None,
        XmlKind::Eof => {
            if stack.len() > 0 {
                return Some(xml_fault("unclosed element(s) remain".to_owned()));
            }
            match root.take() {
                Some(v) => Some(Ok(v)),
                None => Some(xml_fault("no root element".to_owned())),
            }
        },
        XmlKind::Failure => {
            let source = text.clone();
            Some(Err(ArtfulError::XmlDeserializeError { message: text, source: Some(source) }))
        },
    }
}

proof fn lemma_tokens_view_rest(toks: Seq<XmlToken>)
    requires
        toks.len() > 0,
    ensures
        tokens_view(toks.subrange(1, toks.len() as int)) == tokens_view(toks).drop_first(),
        tokens_view(toks)[0] == toks[0]@,
{
    assert(tokens_view(toks.subrange(1, toks.len() as int)) =~= tokens_view(toks).drop_first());
}

/// Reads a stream of events into a value; see [`xml_run`]. This is the
/// whole of unpacking once the document has been read into events.
pub fn unpack_tokens(tokens: Vec<XmlToken>) -> (r: Result<JsonValue, ArtfulError>)
    ensures
        xml_result_is(r, xml_run(Seq::empty(), None, tokens_view(tokens@))),
{
    let ghost goal = xml_run(Seq::empty(), None, tokens_view(tokens@));
    let mut toks = tokens;
    let mut stack: Vec<XmlElement> = Vec::new();
    let mut root: Option<JsonValue> = None;
    assert(stack_view(stack@) =~= Seq::<ElemView>::empty());
    while toks.len() > 0
        invariant
            xml_run(stack_view(stack@), opt_view(root), tokens_view(toks@)) == goal,
            goal == xml_run(Seq::empty(), None, tokens_view(tokens@)),
        decreases toks@.len(),
    {
        let ghost before = toks@;
        let ghost sv = stack_view(stack@);
        let ghost rv = opt_view(root);
        proof {
            lemma_tokens_view_rest(before);
        }
        let tok = toks.remove(0);
        assert(xml_run(sv, rv, tokens_view(before)) == match xml_step(sv, rv, tok@) {
            XmlStep::Go(s, r) => xml_run(s, r, tokens_view(toks@)),
            XmlStep::Stop(res) => res,
        });
        assert(toks@ =~= before.subrange(1, before.len() as int));
        match unpack_step(&mut stack, &mut root, tok) {
            Some(res) => {
                return res;
            },
            None => {},
        }
    }
    assert(tokens_view(toks@) =~= Seq::<(XmlKind, Seq<char>)>::empty());
    unpack_step(&mut stack, &mut root, XmlToken::new(XmlKind::Eof, String::new())).unwrap()
}

impl XmlPacker {
    /// Reads an XML document into a value; see [`xml_unpack_spec`]. `params`
    /// is not consulted.
    pub fn unpack(&self, data: &str, params: &JsonMap) -> (r: Result<JsonValue, ArtfulError>)
        ensures
            xml_result_is(r, xml_unpack_spec(data@)),
    {
        let cs = chars_of(data);
        proof {
            reveal_strlit("0");
        }
        if cs.len() == 0 || (cs.len() == 1 && cs[0] == '0') {
            assert(cs.len() == 1 && cs[0] == '0' ==> data@ =~= "0"@);
            return Ok(JsonValue::Object(JsonMap::new()));
        }
        assert(data@ != "0"@);
        let mut reader = xml_reader(data);
        let ghost all = xml_pending(reader);
        let mut tokens: Vec<XmlToken> = Vec::new();
        assert(tokens_view(tokens@) + all =~= all);
        loop
            invariant_except_break
                stream_shape(xml_pending(reader)),
            invariant
                tokens_view(tokens@) + xml_pending(reader) == all,
            ensures
                tokens_view(tokens@) == all,
            decreases xml_pending(reader).len(),
        {
            let ghost pending = xml_pending(reader);
            let ghost before = tokens_view(tokens@);
            let (kind, text) = xml_next(&mut reader);
            let terminal = kind == XmlKind::Eof || kind == XmlKind::Failure;
            let tok = XmlToken::new(kind, text);
            tokens.push(tok);
            assert(tokens_view(tokens@) =~= before.push(pending[0]));
            assert(tokens_view(tokens@) + xml_pending(reader) =~= before + pending);
            if terminal {
                assert(is_terminal(pending[0].0));
                proof {
                    if pending.len() > 1 {
                        assert(!is_terminal(pending[0].0));
                    }
                }
                assert(pending.len() == 1);
                assert(xml_pending(reader) =~= Seq::<(XmlKind, Seq<char>)>::empty());
                assert(tokens_view(tokens@) =~= all);
                break;
            }
            assert(!is_terminal(pending[0].0));
            assert(pending.len() > 1);
            assert(stream_shape(xml_pending(reader))) by {
                let p = xml_pending(reader);
                assert forall|i: int| 0 <= i < p.len() - 1 implies !is_terminal(#[trigger] p[i].0) by {
                    assert(p[i] == pending[i + 1]);
                }
            }
        }
        unpack_tokens(tokens)
    }

    /// The Content-Type of an XML body.
    pub fn content_type(&self) -> (r: Option<&'static str>)
        ensures
            r matches Some(t) && t@ == xml_content_type(),
    {
        let t = "application/xml";
        proof {
            reveal_strlit("application/xml");
        }
        Some(t)
    }
}

/// `application/xml`.
pub open spec fn xml_content_type() -> Seq<char> {
    seq!['a', 'p', 'p', 'l', 'i', 'c', 'a', 't', 'i', 'o', 'n', '/', 'x', 'm', 'l']
}

/// The text inside the element `pack` writes for a scalar, without CDATA
/// markers.
pub open spec fn packed_text(v: JsonView) -> Seq<char> {
    match v {
        JsonView::Number(t) => t,
        JsonView::Str(t) => t,
        JsonView::Bool(b) => if b {
            "1"@
        } else {
            Seq::empty()
        },
        _ => Seq::empty(),
    }
}

/// Whether `pack` writes a scalar as plain text or as CDATA.
pub open spec fn packed_kind(v: JsonView) -> XmlKind {
    if v is Number || (v is Str && numeric_text(v->Str_0)) {
        XmlKind::Text
    } else {
        XmlKind::CData
    }
}

/// The events of the element `pack` writes for one entry.
pub open spec fn entry_events(k: Seq<char>, v: JsonView) -> Seq<(XmlKind, Seq<char>)> {
    seq![(XmlKind::Start, k), (packed_kind(v), packed_text(v)), (XmlKind::End, k)]
}

/// The events of the elements of entries `i..`.
pub open spec fn entries_events(o: Seq<(Seq<char>, JsonView)>, i: int) -> Seq<(XmlKind, Seq<char>)>
    decreases o.len() - i,
{
    if i < 0 || i >= o.len() {
        Seq::empty()
    } else {
        entry_events(o[i].0, o[i].1) + entries_events(o, i + 1)
    }
}

/// The events of the document `pack` writes for `o`, as a reader hands
/// them out: the `<xml>` element around one element per entry, then the
/// end of the document.
pub open spec fn packed_events(o: Seq<(Seq<char>, JsonView)>) -> Seq<(XmlKind, Seq<char>)> {
    seq![(XmlKind::Start, "xml"@)] + entries_events(o, 0) + seq![(XmlKind::End, "xml"@), (XmlKind::Eof, Seq::empty())]
}

/// What unpacking reads back for a packed scalar: its text as a string, or
/// an empty object when the text is empty or blank.
pub open spec fn read_back(v: JsonView) -> JsonView {
    let t = packed_text(v);
    if t.len() > 0 && !blank_text(t) {
        JsonView::Str(t)
    } else {
        JsonView::Object(Seq::empty())
    }
}

/// The entries read back from a packed map.
pub open spec fn read_back_entries(o: Seq<(Seq<char>, JsonView)>) -> Seq<(Seq<char>, JsonView)> {
    Seq::new(o.len(), |i: int| (o[i].0, read_back(o[i].1)))
}

/// Applying a stream of events without the end of the document.
pub open spec fn run_steps(stack: Seq<ElemView>, root: Option<JsonView>, a: Seq<(XmlKind, Seq<char>)>) -> XmlStep
    decreases a.len(),
{
    if a.len() == 0 {
        XmlStep::Go(stack, root)
    } else {
        match xml_step(stack, root, a[0]) {
            XmlStep::Go(s, r) => run_steps(s, r, a.drop_first()),
            XmlStep::Stop(res) => XmlStep::Stop(res),
        }
    }
}

proof fn lemma_run_concat(
    stack: Seq<ElemView>,
    root: Option<JsonView>,
    a: Seq<(XmlKind, Seq<char>)>,
    b: Seq<(XmlKind, Seq<char>)>,
)
    requires
        run_steps(stack, root, a) is Go,
    ensures
        run_steps(stack, root, a + b) == match run_steps(stack, root, a) {
            XmlStep::Go(s, r) => run_steps(s, r, b),
            XmlStep::Stop(res) => XmlStep::Stop(res),
        },
        xml_run(stack, root, a + b) == match run_steps(stack, root, a) {
            XmlStep::Go(s, r) => xml_run(s, r, b),
            XmlStep::Stop(res) => res,
        },
    decreases a.len(),
{
    if a.len() == 0 {
        assert(a + b =~= b);
    } else {
        assert((a + b)[0] == a[0]);
        assert((a + b).drop_first() =~= a.drop_first() + b);
        match xml_step(stack, root, a[0]) {
            XmlStep::Go(s, r) => {
                lemma_run_concat(s, r, a.drop_first(), b);
            },
            XmlStep::Stop(_) => {},
        }
    }
}

proof fn lemma_map_insert_last(e: Seq<(Seq<char>, JsonView)>, k: Seq<char>, v: JsonView)
    requires
        keys_sorted(e),
        forall|i: int| 0 <= i < e.len() ==> key_lt(#[trigger] e[i].0, k),
    ensures
        map_get(e, k) is None,
        map_insert(e, k, v) == e.push((k, v)),
{
    lemma_lower_bound(e, k);
    let p = lower_bound(e, k);
    if p < e.len() {
        assert(key_lt(e[p].0, k));
    }
    assert(p == e.len());
    assert(e.insert(p, (k, v)) =~= e.push((k, v)));
}

/// The root `<xml>` element holding the children read so far.
pub open spec fn xml_root(children: Seq<(Seq<char>, JsonView)>) -> ElemView {
    ElemView { name: "xml"@, text: Seq::empty(), first_blank: None, children }
}

proof fn lemma_entry_step(c: Seq<(Seq<char>, JsonView)>, k: Seq<char>, v: JsonView)
    requires
        keys_sorted(c),
        forall|i: int| 0 <= i < c.len() ==> key_lt(#[trigger] c[i].0, k),
    ensures
        run_steps(seq![xml_root(c)], None, entry_events(k, v)) == XmlStep::Go(
            seq![xml_root(c.push((k, read_back(v))))],
            None,
        ),
{
    let ev = entry_events(k, v);
    let s0 = seq![xml_root(c)];
    let e1 = new_elem(k);
    let s1 = s0.push(e1);
    assert(xml_step(s0, None, ev[0]) == XmlStep::Go(s1, None));
    let e2 = append_text_spec(e1, packed_text(v));
    let s2 = s1.update(1, e2);
    assert(xml_step(s1, None, ev[1]) == XmlStep::Go(s2, None));
    assert(s2.last() == e2);
    assert(s2.drop_last() =~= s0);
    lemma_map_insert_last(c, k, read_back(v));
    assert(finish_spec(e2, false) == read_back(v));
    assert(xml_step(s2, None, ev[2]) == XmlStep::Go(seq![xml_root(c.push((k, read_back(v))))], None)) by {
        assert(s2.drop_last().update(0, child_added(s2.drop_last().last(), e2.name, finish_spec(e2, false)))
            =~= seq![xml_root(c.push((k, read_back(v))))]);
    }
    assert(ev.drop_first()[0] == ev[1]);
    assert(ev.drop_first().drop_first()[0] == ev[2]);
    assert(ev.drop_first().drop_first().drop_first().len() == 0);
    reveal_with_fuel(run_steps, 4);
}

proof fn lemma_entries_steps(o: Seq<(Seq<char>, JsonView)>, i: int)
    requires
        keys_sorted(o),
        0 <= i <= o.len(),
    ensures
        run_steps(seq![xml_root(read_back_entries(o).take(i))], None, entries_events(o, i)) == XmlStep::Go(
            seq![xml_root(read_back_entries(o))],
            None,
        ),
    decreases o.len() - i,
{
    let r = read_back_entries(o);
    if i == o.len() {
        assert(r.take(i) =~= r);
        assert(entries_events(o, i) =~= Seq::<(XmlKind, Seq<char>)>::empty());
    } else {
        let c = r.take(i);
        assert(keys_sorted(c)) by {
            assert forall|a: int, b: int| 0 <= a < b < c.len() implies key_lt(#[trigger] c[a].0, #[trigger] c[b].0) by {
                assert(c[a].0 == o[a].0 && c[b].0 == o[b].0);
            }
        }
        assert forall|j: int| 0 <= j < c.len() implies key_lt(#[trigger] c[j].0, o[i].0) by {
            assert(c[j].0 == o[j].0);
        }
        lemma_entry_step(c, o[i].0, o[i].1);
        assert(c.push((o[i].0, read_back(o[i].1))) =~= r.take(i + 1));
        lemma_run_concat(seq![xml_root(c)], None, entry_events(o[i].0, o[i].1), entries_events(o, i + 1));
        lemma_entries_steps(o, i + 1);
    }
}

/// What `pack` writes reads back: the events of a packed map, unpacked,
/// give an object with the same keys in the same order, each value the
/// text it was written as (a string), or an empty object where that text is
/// empty or blank (`false`, `null`, `""`).
pub proof fn law_pack_then_unpack(o: Seq<(Seq<char>, JsonView)>)
    requires
        keys_sorted(o),
        forall|i: int| 0 <= i < o.len() ==> !is_container(#[trigger] o[i].1),
    ensures
        xml_run(Seq::empty(), None, packed_events(o)) == Ok::<JsonView, XmlFault>(
            JsonView::Object(read_back_entries(o)),
        ),
{
    let start = seq![(XmlKind::Start, "xml"@)];
    let body = entries_events(o, 0);
    let tail = seq![(XmlKind::End, "xml"@), (XmlKind::Eof, Seq::<char>::empty())];
    let r = read_back_entries(o);
    assert(packed_events(o) =~= start + (body + tail));
    assert(xml_step(Seq::empty(), None, start[0]) == XmlStep::Go(seq![new_elem("xml"@)], None));
    assert(start.drop_first().len() == 0);
    assert(run_steps(Seq::empty(), None, start) == XmlStep::Go(seq![new_elem("xml"@)], None)) by {
        reveal_with_fuel(run_steps, 2);
    }
    lemma_run_concat(Seq::empty(), None, start, body + tail);
    assert(r.take(0) =~= Seq::<(Seq<char>, JsonView)>::empty());
    assert(new_elem("xml"@) == xml_root(r.take(0)));
    lemma_entries_steps(o, 0);
    lemma_run_concat(seq![xml_root(r.take(0))], None, body, tail);
    let fin = finish_spec(xml_root(r), true);
    assert(fin == JsonView::Object(r)) by {
        if r.len() == 0 {
            assert(r =~= Seq::<(Seq<char>, JsonView)>::empty());
        }
    }
    assert(xml_step(seq![xml_root(r)], None, tail[0]) == XmlStep::Go(Seq::empty(), Some(fin))) by {
        assert(seq![xml_root(r)].drop_last() =~= Seq::<ElemView>::empty());
    }
    assert(tail.drop_first()[0] == (XmlKind::Eof, Seq::<char>::empty()));
    assert(tail.drop_first().drop_first().len() == 0);
    reveal_with_fuel(xml_run, 3);
}

} // verus!
