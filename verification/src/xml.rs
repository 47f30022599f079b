//! XML transport layer for the pango backend.
//!
//! The actual writing is done by `xml_writer::XmlWriter` over a `Vec<u8>`
//! sink. Its abstract state is modelled by four spec-level names: the
//! characters written so far, the stack of open element names, whether the
//! most recently begun tag is still awaiting its closing `>`, and whether
//! the writer is in the plain configuration this crate constructs (no
//! pretty-printing, no namespace). Each wrapper states, over those names,
//! exactly what the corresponding `XmlWriter` method appends.
//!
//! All writes go to a `Vec<u8>`; std documents `Write` for `Vec<u8>` as
//! appending to the vector, growing as needed, so no write here can fail.

use vstd::prelude::*;

verus! {

/// The entity reference written for `"`.
pub open spec fn quot_ref() -> Seq<char> {
    seq!['&', 'q', 'u', 'o', 't', ';']
}

/// The entity reference written for `'`.
pub open spec fn apos_ref() -> Seq<char> {
    seq!['&', 'a', 'p', 'o', 's', ';']
}

/// The entity reference written for `&`.
pub open spec fn amp_ref() -> Seq<char> {
    seq!['&', 'a', 'm', 'p', ';']
}

/// The entity reference written for `<`.
pub open spec fn lt_ref() -> Seq<char> {
    seq!['&', 'l', 't', ';']
}

/// The entity reference written for `>`.
pub open spec fn gt_ref() -> Seq<char> {
    seq!['&', 'g', 't', ';']
}

/// How one character of text or of an attribute value is written:
/// the five XML-special characters become entity references, every other
/// character stands for itself. This is `XmlWriter::escape` with its
/// identifier mode off.
pub open spec fn xml_escape_char(c: char) -> Seq<char> {
    if c == '"' {
        quot_ref()
    } else if c == '\'' {
        apos_ref()
    } else if c == '&' {
        amp_ref()
    } else if c == '<' {
        lt_ref()
    } else if c == '>' {
        gt_ref()
    } else {
        seq![c]
    }
}

/// Entity-escaping of a whole text, character by character.
pub open spec fn xml_escape(s: Seq<char>) -> Seq<char>
    decreases s.len(),
{
    if s.len() == 0 {
        Seq::<char>::empty()
    } else {
        xml_escape_char(s[0]) + xml_escape(s.drop_first())
    }
}

/// The characters that `xml_escape` rewrites.
pub open spec fn xml_special_char(c: char) -> bool {
    c == '"' || c == '\'' || c == '&' || c == '<' || c == '>'
}

/// An attribute name that the writer copies verbatim: nothing in it is
/// rewritten by escaping in identifier mode.
pub open spec fn xml_plain_name(s: Seq<char>) -> bool {
    forall|i: int| 0 <= i < s.len() ==> !xml_special_char(s[i]) && s[i] != '\\'
}

/// Escaping leaves a text without special characters unchanged.
pub proof fn lemma_escape_plain(s: Seq<char>)
    requires
        forall|i: int| 0 <= i < s.len() ==> !xml_special_char(s[i]),
    ensures
        xml_escape(s) == s,
    decreases s.len(),
{
    if s.len() == 0 {
        assert(xml_escape(s) =~= s);
    } else {
        lemma_escape_plain(s.drop_first());
        assert(xml_escape_char(s[0]) =~= seq![s[0]]);
        assert(xml_escape(s) =~= s);
    }
}

/// How an XML parser reads a text node back: each entity reference yields
/// its character, every other character stands for itself.
pub open spec fn xml_unescape(s: Seq<char>) -> Seq<char>
    decreases s.len(),
{
    if s.len() == 0 {
        Seq::<char>::empty()
    } else if quot_ref().is_prefix_of(s) {
        seq!['"'] + xml_unescape(s.skip(6))
    } else if apos_ref().is_prefix_of(s) {
        seq!['\''] + xml_unescape(s.skip(6))
    } else if amp_ref().is_prefix_of(s) {
        seq!['&'] + xml_unescape(s.skip(5))
    } else if lt_ref().is_prefix_of(s) {
        seq!['<'] + xml_unescape(s.skip(4))
    } else if gt_ref().is_prefix_of(s) {
        seq!['>'] + xml_unescape(s.skip(4))
    } else {
        seq![s[0]] + xml_unescape(s.drop_first())
    }
}

/// Unescaping inverts escaping: an entity-escaped text reads back as
/// exactly the text that was escaped, so no escaped text can be taken for
/// markup of its own.
pub proof fn lemma_escape_round_trip(s: Seq<char>)
    ensures
        xml_unescape(xml_escape(s)) == s,
    decreases s.len(),
{
    if s.len() == 0 {
        assert(xml_unescape(xml_escape(s)) =~= s);
    } else {
        lemma_escape_round_trip(s.drop_first());
        let c = s[0];
        let rest = xml_escape(s.drop_first());
        let t = xml_escape_char(c) + rest;
        assert(xml_escape(s) == t);
        if c == '"' {
            assert(quot_ref().is_prefix_of(t)) by {
                assert(quot_ref() =~= t.subrange(0, 6));
            }
            assert(t.skip(6) =~= rest);
            assert(seq!['"'] + s.drop_first() =~= s);
        } else if c == '\'' {
            lemma_not_prefix(quot_ref(), t, 1);
            assert(apos_ref().is_prefix_of(t)) by {
                assert(apos_ref() =~= t.subrange(0, 6));
            }
            assert(t.skip(6) =~= rest);
            assert(seq!['\''] + s.drop_first() =~= s);
        } else if c == '&' {
            lemma_not_prefix(quot_ref(), t, 1);
            lemma_not_prefix(apos_ref(), t, 2);
            assert(amp_ref().is_prefix_of(t)) by {
                assert(amp_ref() =~= t.subrange(0, 5));
            }
            assert(t.skip(5) =~= rest);
            assert(seq!['&'] + s.drop_first() =~= s);
        } else if c == '<' {
            lemma_not_prefix(quot_ref(), t, 1);
            lemma_not_prefix(apos_ref(), t, 1);
            lemma_not_prefix(amp_ref(), t, 1);
            assert(lt_ref().is_prefix_of(t)) by {
                assert(lt_ref() =~= t.subrange(0, 4));
            }
            assert(t.skip(4) =~= rest);
            assert(seq!['<'] + s.drop_first() =~= s);
        } else if c == '>' {
            lemma_not_prefix(quot_ref(), t, 1);
            lemma_not_prefix(apos_ref(), t, 1);
            lemma_not_prefix(amp_ref(), t, 1);
            lemma_not_prefix(lt_ref(), t, 1);
            assert(gt_ref().is_prefix_of(t)) by {
                assert(gt_ref() =~= t.subrange(0, 4));
            }
            assert(t.skip(4) =~= rest);
            assert(seq!['>'] + s.drop_first() =~= s);
        } else {
            lemma_not_prefix(quot_ref(), t, 0);
            lemma_not_prefix(apos_ref(), t, 0);
            lemma_not_prefix(amp_ref(), t, 0);
            lemma_not_prefix(lt_ref(), t, 0);
            lemma_not_prefix(gt_ref(), t, 0);
            assert(t[0] == c);
            assert(t.drop_first() =~= rest);
            assert(seq![c] + s.drop_first() =~= s);
        }
    }
}

/// A sequence that differs from `p` at index `k` does not have `p` as a
/// prefix.
proof fn lemma_not_prefix(p: Seq<char>, t: Seq<char>, k: int)
    requires
        0 <= k < p.len(),
        k < t.len() ==> t[k] != p[k],
    ensures
        !p.is_prefix_of(t),
{
    if p.is_prefix_of(t) {
        assert(p.len() <= t.len());
        assert(t.subrange(0, p.len() as int)[k] == t[k]);
        assert(false);
    }
}

/// What a lazily closed tag contributes when the next write commits it.
pub open spec fn close_mark(opened: bool) -> Seq<char> {
    if opened {
        seq!['>']
    } else {
        Seq::<char>::empty()
    }
}

/// An `xml_writer::XmlWriter` over a `Vec<u8>` sink. The writer's trait
/// bound keeps Verus from declaring the type directly, so it is held in an
/// opaque struct; the names below give its abstract state.
#[verifier::external_body]
pub struct XmlSink {
    inner: xml_writer::XmlWriter<'static, Vec<u8>>,
}

/// The characters the writer has committed to its buffer so far.
pub uninterp spec fn xml_out(w: XmlSink) -> Seq<char>;

/// The names of the elements begun and not yet ended, outermost first.
pub uninterp spec fn xml_stack(w: XmlSink) -> Seq<Seq<char>>;

/// Whether the most recently begun tag still awaits its closing `>`.
pub uninterp spec fn xml_opened(w: XmlSink) -> bool;

/// Whether the writer is in the configuration this crate constructs:
/// pretty-printing off, no namespace, and the namespace stack mirroring
/// the element stack.
pub uninterp spec fn xml_plain(w: XmlSink) -> bool;

/// Relies on `xml_writer::XmlWriter::new` over a `Vec<u8>` sink, with
/// pretty-printing switched off: a fresh writer with an empty buffer, no
/// open element, and no tag awaiting its `>`.
#[verifier::external_body]
pub(crate) fn xml_new() -> (w: XmlSink)
    ensures
        xml_plain(w),
        xml_out(w) == Seq::<char>::empty(),
        xml_stack(w) == Seq::<Seq<char>>::empty(),
        !xml_opened(w),
{
    let mut inner = xml_writer::XmlWriter::new(Vec::new());
    inner.pretty = false;
    XmlSink { inner }
}

/// Relies on `xml_writer::XmlWriter::begin_elem`: commits a pending `>`,
/// writes `<` and the name verbatim, pushes the name, and leaves the new
/// tag awaiting its `>`. Writing to the `Vec<u8>` sink cannot fail.
#[verifier::external_body]
pub(crate) fn xml_begin(w: &mut XmlSink, name: &'static str)
    requires
        xml_plain(*old(w)),
    ensures
        xml_plain(*final(w)),
        xml_out(*final(w)) == xml_out(*old(w)) + close_mark(xml_opened(*old(w))) + seq!['<']
            + name@,
        xml_stack(*final(w)) == xml_stack(*old(w)).push(name@),
        xml_opened(*final(w)),
{
    let _ = w.inner.begin_elem(name);
}

/// Relies on `xml_writer::XmlWriter::text`: commits a pending `>` and
/// writes the text entity-escaped. Writing to the `Vec<u8>` sink cannot
/// fail.
#[verifier::external_body]
pub(crate) fn xml_text(w: &mut XmlSink, s: &str)
    requires
        xml_plain(*old(w)),
    ensures
        xml_plain(*final(w)),
        xml_out(*final(w)) == xml_out(*old(w)) + close_mark(xml_opened(*old(w))) + xml_escape(
            s@,
        ),
        xml_stack(*final(w)) == xml_stack(*old(w)),
        !xml_opened(*final(w)),
{
    let _ = w.inner.text(s);
}

/// Relies on `xml_writer::XmlWriter::attr_esc`: inside a tag still awaiting
/// its `>`, writes a space, the name (unchanged, as nothing in a plain name
/// is rewritten), `="`, the value entity-escaped, and `"`. The method
/// panics when no tag is open, so that case is excluded. Writing to the
/// `Vec<u8>` sink cannot fail.
#[verifier::external_body]
pub(crate) fn xml_attr_esc(
    w: &mut XmlSink,
    name: &'static str,
    value: &str,
)
    requires
        xml_plain(*old(w)),
        xml_opened(*old(w)),
        xml_plain_name(name@),
    ensures
        xml_plain(*final(w)),
        xml_out(*final(w)) == xml_out(*old(w)) + seq![' '] + name@ + seq!['=', '"'] + xml_escape(
            value@,
        ) + seq!['"'],
        xml_stack(*final(w)) == xml_stack(*old(w)),
        xml_opened(*final(w)),
{
    let _ = w.inner.attr_esc(name, value);
}

/// Relies on `xml_writer::XmlWriter::end_elem`: commits a pending `>`,
/// pops the innermost open element and writes its closing tag. The method
/// panics when no element is open, so that case is excluded. Writing to
/// the `Vec<u8>` sink cannot fail.
#[verifier::external_body]
pub(crate) fn xml_end(w: &mut XmlSink)
    requires
        xml_plain(*old(w)),
        xml_stack(*old(w)).len() > 0,
    ensures
        xml_plain(*final(w)),
        xml_out(*final(w)) == xml_out(*old(w)) + close_mark(xml_opened(*old(w))) + seq!['<', '/']
            + xml_stack(*old(w)).last() + seq!['>'],
        xml_stack(*final(w)) == xml_stack(*old(w)).drop_last(),
        !xml_opened(*final(w)),
{
    let _ = w.inner.end_elem();
}

/// Relies on `xml_writer::XmlWriter::flush`: flushing the `Vec<u8>` sink
/// has no effect on what has been written.
#[verifier::external_body]
pub(crate) fn xml_flush(w: &mut XmlSink)
    requires
        xml_plain(*old(w)),
    ensures
        xml_plain(*final(w)),
        xml_out(*final(w)) == xml_out(*old(w)),
        xml_stack(*final(w)) == xml_stack(*old(w)),
        xml_opened(*final(w)) == xml_opened(*old(w)),
{
    let _ = w.inner.flush();
}

/// Relies on `xml_writer::XmlWriter::into_inner` and `String::from_utf8`:
/// the buffer holds the UTF-8 encoding of the characters written, since
/// every write the writer makes comes from `str` bytes or an encoded
/// `char`, so decoding returns exactly those characters.
#[verifier::external_body]
pub(crate) fn xml_finish(w: XmlSink) -> (r: String)
    ensures
        r@ == xml_out(w),
{
    match String::from_utf8(w.inner.into_inner()) {
        Ok(s) => s,
        Err(_) => String::new(),
    }
}

} // verus!
