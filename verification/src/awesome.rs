//! The pango/XML markup backend.
//!
//! The whole document is wrapped in a `<markup>` root element. Literal text
//! renders as a `<span>` holding the entity-escaped text — the transport
//! always escapes, so the plain/raw distinction has no observable effect
//! here. Colors render as a `<span>` with a `foreground` or `background`
//! attribute around the child. Alignment, separator suppression and click
//! regions have no pango representation and render the child unchanged.
//! Padding renders its spaces as an independent `<span>`, omitted entirely
//! when the count is zero.
//!
//! [`render_step`] gives the exact characters each subtree contributes,
//! threading the writer's lazily closed tag through the walk, so
//! [`AwesomeFormatter::format`] pins its output completely.

use vstd::prelude::*;
use vstd::seq_lib::lemma_concat_associative;
use vstd::string::StringExecFns;

use crate::data::Alignment;
use crate::data::ClickAction;
use crate::data::Format;
use crate::xml::XmlSink;
use crate::xml::close_mark;
use crate::xml::lemma_escape_plain;
use crate::xml::xml_plain_name;
use crate::xml::xml_attr_esc;
use crate::xml::xml_begin;
use crate::xml::xml_end;
use crate::xml::xml_escape;
use crate::xml::xml_escape_char;
use crate::xml::xml_finish;
use crate::xml::xml_flush;
use crate::xml::xml_new;
use crate::xml::xml_opened;
use crate::xml::xml_out;
use crate::xml::xml_plain;
use crate::xml::xml_stack;
use crate::xml::xml_text;

verus! {

/// The characters of `<span`, the styling element's opening, before its
/// attributes and its `>`.
pub open spec fn span_open() -> Seq<char> {
    seq!['<', 's', 'p', 'a', 'n']
}

/// The characters of `</span>`.
pub open spec fn span_close() -> Seq<char> {
    seq!['<', '/', 's', 'p', 'a', 'n', '>']
}

/// The characters of `<markup`, the root element's opening.
pub open spec fn markup_open() -> Seq<char> {
    seq!['<', 'm', 'a', 'r', 'k', 'u', 'p']
}

/// The characters of `</markup>`.
pub open spec fn markup_close() -> Seq<char> {
    seq!['<', '/', 'm', 'a', 'r', 'k', 'u', 'p', '>']
}

/// The characters of the `foreground` attribute name.
pub open spec fn foreground_name() -> Seq<char> {
    seq!['f', 'o', 'r', 'e', 'g', 'r', 'o', 'u', 'n', 'd']
}

/// The characters of the `background` attribute name.
pub open spec fn background_name() -> Seq<char> {
    seq!['b', 'a', 'c', 'k', 'g', 'r', 'o', 'u', 'n', 'd']
}

/// A color attribute as the writer emits it: a space, the attribute name,
/// `="`, the entity-escaped color, and `"`.
pub open spec fn color_attr(name: Seq<char>, color: Seq<char>) -> Seq<char> {
    seq![' '] + name + seq!['=', '"'] + xml_escape(color) + seq!['"']
}

/// A run of `n` space characters.
pub open spec fn space_run(n: nat) -> Seq<char> {
    Seq::new(n, |i: int| ' ')
}

/// What one subtree contributes to the output, and whether it leaves a tag
/// awaiting its `>`.
///
/// `opened` says whether such a tag is pending when the walk reaches this
/// subtree; the subtree's first committed write emits the `>` for it. The
/// result pairs the characters appended with the pending flag afterwards —
/// a subtree that writes nothing leaves the flag as it found it.
pub open spec fn render_step(f: Format, opened: bool) -> (Seq<char>, bool)
    decreases f,
{
    match f {
        Format::UnescapedStr(s) => (
            close_mark(opened) + span_open() + seq!['>'] + xml_escape(s@) + span_close(),
            false,
        ),
        Format::Str(s) => (
            close_mark(opened) + span_open() + seq!['>'] + xml_escape(s@) + span_close(),
            false,
        ),
        Format::Concat(fs) => render_list(fs@, opened),
        Format::Align(_alignment, content) => render_step(*content, opened),
        Format::FgColor(c, content) => {
            let inner = render_step(*content, true);
            (
                close_mark(opened) + span_open() + color_attr(foreground_name(), c@) + inner.0
                    + close_mark(inner.1) + span_close(),
                false,
            )
        },
        Format::BgColor(c, content) => {
            let inner = render_step(*content, true);
            (
                close_mark(opened) + span_open() + color_attr(background_name(), c@) + inner.0
                    + close_mark(inner.1) + span_close(),
                false,
            )
        },
        Format::NoSeparator(content) => render_step(*content, opened),
        Format::Padding(n, content) => {
            if n == 0 {
                render_step(*content, opened)
            } else {
                let inner = render_step(*content, false);
                (
                    close_mark(opened) + span_open() + seq!['>'] + space_run(n as nat)
                        + span_close() + inner.0,
                    inner.1,
                )
            }
        },
        Format::Clickable(_action, content) => render_step(*content, opened),
    }
}

/// What a list of subtrees contributes in order, threading the pending-tag
/// flag from one child to the next.
pub open spec fn render_list(fs: Seq<Box<Format>>, opened: bool) -> (Seq<char>, bool)
    decreases fs,
{
    if fs.len() == 0 {
        (Seq::<char>::empty(), opened)
    } else {
        let head = render_step(*fs[0], opened);
        let tail = render_list(fs.drop_first(), head.1);
        (head.0 + tail.0, tail.1)
    }
}

/// The complete pango markup for a document: the `<markup>` root around the
/// document's own contribution. The root's `>` is committed by the first
/// write inside it, or by the closing tag when the document writes nothing.
pub open spec fn spec_format(f: Format) -> Seq<char> {
    let body = render_step(f, true);
    markup_open() + body.0 + close_mark(body.1) + markup_close()
}

/// Rendering one more subtree extends the prefix by that subtree's own
/// contribution, taken from the flag the prefix leaves behind.
pub proof fn lemma_render_list_snoc(fs: Seq<Box<Format>>, x: Box<Format>, opened: bool)
    ensures
        render_list(fs.push(x), opened).0 == render_list(fs, opened).0 + render_step(
            *x,
            render_list(fs, opened).1,
        ).0,
        render_list(fs.push(x), opened).1 == render_step(*x, render_list(fs, opened).1).1,
    decreases fs,
{
    if fs.len() == 0 {
        reveal_with_fuel(render_list, 2);
        assert(fs.push(x)[0] == x);
        assert(fs.push(x).drop_first() =~= Seq::<Box<Format>>::empty());
        let head = render_step(*x, opened);
        assert(render_list(fs.push(x), opened).0 =~= head.0 + render_list(
            Seq::<Box<Format>>::empty(),
            head.1,
        ).0);
        assert(head.0 + Seq::<char>::empty() =~= head.0);
        assert(render_list(fs, opened).0 =~= Seq::<char>::empty());
        assert(render_list(fs, opened).0 + head.0 =~= head.0);
    } else {
        let head = render_step(*fs[0], opened);
        lemma_render_list_snoc(fs.drop_first(), x, head.1);
        assert(fs.push(x)[0] == fs[0]);
        assert(fs.push(x).drop_first() =~= fs.drop_first().push(x));
        assert(render_list(fs.push(x), opened).0 =~= render_list(fs, opened).0 + render_step(
            *x,
            render_list(fs, opened).1,
        ).0);
    }
}

/// This backend has no alignment primitive: an aligned node renders
/// exactly as its child, so no alignment directive can reach the output.
pub proof fn lemma_align_passthrough(a: Alignment, content: Box<Format>, opened: bool)
    ensures
        render_step(Format::Align(a, content), opened) == render_step(*content, opened),
        spec_format(Format::Align(a, content)) == spec_format(*content),
{
}

/// This backend's transport has no separator flag: a separator-suppressed
/// node renders exactly as its child.
pub proof fn lemma_no_separator_passthrough(content: Box<Format>, opened: bool)
    ensures
        render_step(Format::NoSeparator(content), opened) == render_step(*content, opened),
        spec_format(Format::NoSeparator(content)) == spec_format(*content),
{
}

/// This backend has no click regions: a clickable node renders exactly as
/// its child; the action's command never reaches the output.
pub proof fn lemma_clickable_passthrough(act: ClickAction, content: Box<Format>, opened: bool)
    ensures
        render_step(Format::Clickable(act, content), opened) == render_step(*content, opened),
        spec_format(Format::Clickable(act, content)) == spec_format(*content),
{
}

/// A padding of zero spaces produces no padding span at all: the node
/// renders exactly as its child.
pub proof fn lemma_padding_zero_passthrough(content: Box<Format>, opened: bool)
    ensures
        render_step(Format::Padding(0, content), opened) == render_step(*content, opened),
        spec_format(Format::Padding(0, content)) == spec_format(*content),
{
}

/// The transport always entity-escapes text, so plain and raw text render
/// alike here: the distinction only matters for backends with a control
/// syntax of their own.
pub proof fn lemma_raw_plain_agree(s: String, opened: bool)
    ensures
        render_step(Format::UnescapedStr(s), opened) == render_step(Format::Str(s), opened),
        spec_format(Format::UnescapedStr(s)) == spec_format(Format::Str(s)),
{
}

/// Entity-escaped text holds no angle bracket, so escaped literal text can
/// never be read back as markup by an XML parser.
pub proof fn lemma_escape_no_angle(s: Seq<char>)
    ensures
        forall|i: int|
            0 <= i < xml_escape(s).len() ==> xml_escape(s)[i] != '<' && xml_escape(s)[i] != '>',
    decreases s.len(),
{
    if s.len() == 0 {
    } else {
        lemma_escape_no_angle(s.drop_first());
        let head = xml_escape_char(s[0]);
        assert(forall|i: int| 0 <= i < head.len() ==> head[i] != '<' && head[i] != '>');
        assert(forall|i: int|
            0 <= i < xml_escape(s).len() ==> xml_escape(s)[i] != '<' && xml_escape(s)[i]
                != '>') by {
            assert(xml_escape(s) == head + xml_escape(s.drop_first()));
        }
    }
}

/// Rendering is referentially transparent: [`AwesomeFormatter::format`]
/// returns exactly `spec_format` of the document, so two renderings of the
/// same document value are byte-identical.
pub proof fn lemma_render_deterministic(d: Format, r1: Seq<char>, r2: Seq<char>)
    requires
        r1 == spec_format(d),
        r2 == spec_format(d),
    ensures
        r1 == r2,
{
}

/// A committed `<span>` holding entity-escaped text, as it appears in the
/// rendered output.
pub open spec fn text_span(t: Seq<char>) -> Seq<char> {
    span_open() + seq!['>'] + xml_escape(t) + span_close()
}

/// A committed `<span>` with a foreground color attribute around some
/// already-rendered contents, as it appears in the rendered output.
pub open spec fn fg_span(c: Seq<char>, contents: Seq<char>) -> Seq<char> {
    span_open() + color_attr(foreground_name(), c) + seq!['>'] + contents + span_close()
}

/// An inner color override takes effect only within its own child's span.
/// In a document that colors a first child and then a sibling, the sibling's
/// span stands after the inner colored span has closed, directly inside the
/// outer span: the ambient (outer) styling applies to it, not the inner
/// color and not a reset.
pub proof fn lemma_color_nesting(
    d: Format,
    c1: String,
    c2: String,
    a: String,
    b: String,
    children: Vec<Box<Format>>,
    pair: Box<Format>,
    colored: Box<Format>,
    first: Box<Format>,
    second: Box<Format>,
)
    requires
        d == Format::FgColor(c1, pair),
        *pair == Format::Concat(children),
        children@ == seq![colored, second],
        *colored == Format::FgColor(c2, first),
        *first == Format::Str(a),
        *second == Format::Str(b),
    ensures
        spec_format(d) == markup_open() + seq!['>'] + fg_span(
            c1@,
            fg_span(c2@, text_span(a@)) + text_span(b@),
        ) + markup_close(),
{
    reveal_with_fuel(render_step, 2);
    reveal_with_fuel(render_list, 3);
    let inner_a = render_step(*first, true);
    let head = render_step(*colored, true);
    assert(inner_a.0 =~= seq!['>'] + text_span(a@));
    assert(inner_a.1 == false);
    assert(head.0 =~= seq!['>'] + fg_span(c2@, text_span(a@)));
    assert(head.1 == false);
    assert(children@.len() == 2);
    assert(children@[0] == colored);
    assert(children@[1] == second);
    assert(children@.drop_first() =~= seq![second]);
    assert(seq![second].drop_first() =~= Seq::<Box<Format>>::empty());
    let tail = render_step(*second, false);
    assert(tail.0 =~= text_span(b@));
    assert(tail.1 == false);
    assert(render_list(children@, true).0 == head.0 + tail.0);
    assert(render_list(children@, true).1 == false);
    assert(head.0 + tail.0 =~= seq!['>'] + (fg_span(c2@, text_span(a@)) + text_span(b@)));
    let body = render_step(d, true);
    assert(body.0 =~= seq!['>'] + fg_span(c1@, fg_span(c2@, text_span(a@)) + text_span(b@)));
    assert(body.1 == false);
    assert(spec_format(d) =~= markup_open() + body.0 + markup_close());
    assert(markup_open() + body.0 + markup_close() =~= markup_open() + seq!['>'] + fg_span(
        c1@,
        fg_span(c2@, text_span(a@)) + text_span(b@),
    ) + markup_close());
}

/// The attribute names this backend writes, and that the writer copies
/// them verbatim.
proof fn lemma_attr_names()
    ensures
        "foreground"@ == foreground_name(),
        "background"@ == background_name(),
        xml_plain_name("foreground"@),
        xml_plain_name("background"@),
{
    reveal_strlit("foreground");
    reveal_strlit("background");
    assert("foreground"@ =~= foreground_name());
    assert("background"@ =~= background_name());
}

/// Beginning a `span`, writing escaped text and ending the element appends
/// exactly one committed text span.
proof fn lemma_text_span_shape(out0: Seq<char>, op0: bool, esc: Seq<char>)
    ensures
        out0 + close_mark(op0) + seq!['<'] + "span"@ + close_mark(true) + esc + close_mark(false)
            + seq!['<', '/'] + "span"@ + seq!['>'] == out0 + (close_mark(op0) + span_open()
            + seq!['>'] + esc + span_close()),
{
    reveal_strlit("span");
    assert(out0 + close_mark(op0) + seq!['<'] + "span"@ + close_mark(true) + esc + close_mark(
        false,
    ) + seq!['<', '/'] + "span"@ + seq!['>'] =~= out0 + (close_mark(op0) + span_open() + seq!['>']
        + esc + span_close()));
}

/// Beginning a `span`, writing a color attribute, rendering the child and
/// ending the element appends exactly one colored span around the child's
/// own contribution.
proof fn lemma_color_span_shape(
    out0: Seq<char>,
    op0: bool,
    nm: Seq<char>,
    c: Seq<char>,
    inner: Seq<char>,
    innerop: bool,
)
    ensures
        out0 + close_mark(op0) + seq!['<'] + "span"@ + seq![' '] + nm + seq!['=', '"']
            + xml_escape(c) + seq!['"'] + inner + close_mark(innerop) + seq!['<', '/'] + "span"@
            + seq!['>'] == out0 + (close_mark(op0) + span_open() + color_attr(nm, c) + inner
            + close_mark(innerop) + span_close()),
{
    reveal_strlit("span");
    assert(out0 + close_mark(op0) + seq!['<'] + "span"@ + seq![' '] + nm + seq!['=', '"']
        + xml_escape(c) + seq!['"'] + inner + close_mark(innerop) + seq!['<', '/'] + "span"@
        + seq!['>'] =~= out0 + (close_mark(op0) + span_open() + color_attr(nm, c) + inner
        + close_mark(innerop) + span_close()));
}

/// Beginning the `markup` root, rendering the document and ending the root
/// appends exactly the complete markup.
proof fn lemma_markup_shape(out0: Seq<char>, op0: bool, body: Seq<char>, bodyop: bool)
    ensures
        out0 + close_mark(op0) + seq!['<'] + "markup"@ + body + close_mark(bodyop)
            + seq!['<', '/'] + "markup"@ + seq!['>'] == out0 + close_mark(op0) + (markup_open()
            + body + close_mark(bodyop) + markup_close()),
{
    reveal_strlit("markup");
    assert(out0 + close_mark(op0) + seq!['<'] + "markup"@ + body + close_mark(bodyop)
        + seq!['<', '/'] + "markup"@ + seq!['>'] =~= out0 + close_mark(op0) + (markup_open()
        + body + close_mark(bodyop) + markup_close()));
}

/// A string of `n` spaces.
fn spaces(n: u32) -> (r: String)
    ensures
        r@ == space_run(n as nat),
{
    let mut s = String::new();
    let mut i: u32 = 0;
    proof {
        assert(space_run(0) =~= Seq::<char>::empty());
    }
    while i < n
        invariant
            i <= n,
            s@ == space_run(i as nat),
        decreases n - i,
    {
        s.append(" ");
        i = i + 1;
        proof {
            reveal_strlit(" ");
            assert(" "@ =~= seq![' ']);
            assert(space_run(i as nat) =~= space_run((i - 1) as nat) + seq![' ']);
        }
    }
    s
}

/// The renderer for the pango markup dialect. It holds no state: every
/// call of [`Self::format`] is independent and the output is a function of
/// the document alone.
pub struct AwesomeFormatter {}

impl AwesomeFormatter {
    /// A new renderer. The renderer is stateless, so every value behaves
    /// alike.
    pub fn new() -> (r: AwesomeFormatter)
        ensures
            r == (AwesomeFormatter {  }),
    {
        AwesomeFormatter {  }
    }

    /// Render one document. The result is exactly [`spec_format`] of the
    /// document: a total, deterministic function of the document alone,
    /// so rendering the same value twice gives byte-identical output.
    pub fn format(&mut self, data: &Format) -> (r: String)
        ensures
            r@ == spec_format(*data),
            *final(self) == *old(self),
    {
        let mut xml = xml_new();
        self.markup(&mut xml, data);
        xml_finish(xml)
    }

    /// Write the `<markup>` root element around the document.
    fn markup(&self, xml: &mut XmlSink, data: &Format)
        requires
            xml_plain(*old(xml)),
        ensures
            xml_plain(*final(xml)),
            xml_stack(*final(xml)) == xml_stack(*old(xml)),
            xml_out(*final(xml)) == xml_out(*old(xml)) + close_mark(xml_opened(*old(xml)))
                + spec_format(*data),
            !xml_opened(*final(xml)),
    {
        let ghost op0 = xml_opened(*old(xml));
        xml_begin(xml, "markup");
        self.format_span(xml, data);
        xml_end(xml);
        xml_flush(xml);
        proof {
            let stack0 = xml_stack(*old(xml));
            assert(stack0.push("markup"@).last() == "markup"@);
            assert(stack0.push("markup"@).drop_last() =~= stack0);
            lemma_markup_shape(xml_out(*old(xml)), op0, render_step(*data, true).0, render_step(
                *data,
                true,
            ).1);
        }
    }

    /// Write one subtree. The appended characters and the pending-tag flag
    /// afterwards are exactly what [`render_step`] gives for the flag at
    /// entry; the stack of open elements is left as it was found.
    #[verifier::rlimit(100)]
    fn format_span(&self, xml: &mut XmlSink, data: &Format)
        requires
            xml_plain(*old(xml)),
        ensures
            xml_plain(*final(xml)),
            xml_stack(*final(xml)) == xml_stack(*old(xml)),
            xml_out(*final(xml)) == xml_out(*old(xml)) + render_step(
                *data,
                xml_opened(*old(xml)),
            ).0,
            xml_opened(*final(xml)) == render_step(*data, xml_opened(*old(xml))).1,
        decreases *data,
    {
        let ghost op0 = xml_opened(*old(xml));
        match data {
            Format::UnescapedStr(s) => {
                xml_begin(xml, "span");
                xml_text(xml, s.as_str());
                xml_end(xml);
                proof {
                    let stack0 = xml_stack(*old(xml));
                    assert(stack0.push("span"@).last() == "span"@);
                    assert(stack0.push("span"@).drop_last() =~= stack0);
                    lemma_text_span_shape(xml_out(*old(xml)), op0, xml_escape(s@));
                }
            },
            Format::Str(s) => {
                xml_begin(xml, "span");
                xml_text(xml, s.as_str());
                xml_end(xml);
                proof {
                    let stack0 = xml_stack(*old(xml));
                    assert(stack0.push("span"@).last() == "span"@);
                    assert(stack0.push("span"@).drop_last() =~= stack0);
                    lemma_text_span_shape(xml_out(*old(xml)), op0, xml_escape(s@));
                }
            },
            Format::Concat(fs) => {
                let ghost out0 = xml_out(*xml);
                let ghost stack0 = xml_stack(*xml);
                let mut i: usize = 0;
                proof {
                    assert(fs@.take(0) =~= Seq::<Box<Format>>::empty());
                }
                #[verifier::loop_isolation(false)]
                while i < fs.len()
                    invariant
                        i <= fs.len(),
                        xml_plain(*xml),
                        xml_stack(*xml) == stack0,
                        xml_out(*xml) == out0 + render_list(fs@.take(i as int), op0).0,
                        xml_opened(*xml) == render_list(fs@.take(i as int), op0).1,
                    decreases fs.len() - i,
                {
                    self.format_span(xml, &fs[i]);
                    proof {
                        lemma_render_list_snoc(fs@.take(i as int), fs@[i as int], op0);
                        assert(fs@.take(i as int).push(fs@[i as int]) =~= fs@.take(i + 1));
                        assert(xml_out(*xml) =~= out0 + render_list(fs@.take(i + 1), op0).0);
                    }
                    i = i + 1;
                }
                proof {
                    assert(fs@.take(fs@.len() as int) =~= fs@);
                }
            },
            Format::Align(_alignment, content) => {
                self.format_span(xml, content);
            },
            Format::FgColor(c, content) => {
                xml_begin(xml, "span");
                proof {
                    lemma_attr_names();
                }
                xml_attr_esc(xml, "foreground", c.as_str());
                self.format_span(xml, content);
                xml_end(xml);
                proof {
                    let stack0 = xml_stack(*old(xml));
                    assert(stack0.push("span"@).last() == "span"@);
                    assert(stack0.push("span"@).drop_last() =~= stack0);
                    lemma_color_span_shape(
                        xml_out(*old(xml)),
                        op0,
                        "foreground"@,
                        c@,
                        render_step(**content, true).0,
                        render_step(**content, true).1,
                    );
                }
            },
            Format::BgColor(c, content) => {
                xml_begin(xml, "span");
                proof {
                    lemma_attr_names();
                }
                xml_attr_esc(xml, "background", c.as_str());
                self.format_span(xml, content);
                xml_end(xml);
                proof {
                    let stack0 = xml_stack(*old(xml));
                    assert(stack0.push("span"@).last() == "span"@);
                    assert(stack0.push("span"@).drop_last() =~= stack0);
                    lemma_color_span_shape(
                        xml_out(*old(xml)),
                        op0,
                        "background"@,
                        c@,
                        render_step(**content, true).0,
                        render_step(**content, true).1,
                    );
                }
            },
            Format::NoSeparator(content) => {
                self.format_span(xml, content);
            },
            Format::Padding(n, content) => {
                if *n > 0 {
                    xml_begin(xml, "span");
                    let pad = spaces(*n);
                    xml_text(xml, pad.as_str());
                    xml_end(xml);
                    proof {
                        let stack0 = xml_stack(*old(xml));
                        assert(stack0.push("span"@).last() == "span"@);
                        assert(stack0.push("span"@).drop_last() =~= stack0);
                        assert(forall|j: int|
                            0 <= j < space_run(*n as nat).len() ==> !crate::xml::xml_special_char(
                                space_run(*n as nat)[j],
                            ));
                        lemma_escape_plain(space_run(*n as nat));
                        lemma_text_span_shape(xml_out(*old(xml)), op0, xml_escape(pad@));
                    }
                }
                self.format_span(xml, content);
                proof {
                    if *n > 0 {
                        lemma_concat_associative(
                            xml_out(*old(xml)),
                            close_mark(op0) + span_open() + seq!['>'] + space_run(*n as nat)
                                + span_close(),
                            render_step(**content, false).0,
                        );
                    }
                }
            },
            Format::Clickable(_action, content) => {
                self.format_span(xml, content);
            },
        }
    }
}

} // verus!
