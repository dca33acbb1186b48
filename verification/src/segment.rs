//! Segmentation: the lines of a source file, read from top to bottom, fall
//! into sections, each a run of documentation lines followed by a run of code
//! lines. Empty lines part the sections and belong to none.

use crate::text::{
    chars_of, code_line_text, doc_line_text, has_no_angle_bracket, is_code, is_code_line,
    is_doc_line, is_documentation, lemma_code_line_text_has_no_angle_bracket,
    lemma_concat_has_no_angle_bracket, lemma_leading_white_space, push_code_line, push_doc_line,
};
use vstd::prelude::*;

verus! {

/// The lines of one section: documentation in `start..mid`, code in
/// `mid..end`.
pub struct Span {
    pub start: int,
    pub mid: int,
    pub end: int,
}

/// The documentation and the code of one section, as they stand before the
/// documentation is rendered.
#[derive(Debug)]
pub struct Block {
    pub doc: String,
    pub code: String,
}

impl View for Block {
    type V = (Seq<char>, Seq<char>);

    open spec fn view(&self) -> (Seq<char>, Seq<char>) {
        (self.doc@, self.code@)
    }
}

/// The views of `blocks`, in order.
pub open spec fn block_views(blocks: Seq<Block>) -> Seq<(Seq<char>, Seq<char>)> {
    Seq::new(blocks.len(), |i: int| blocks[i]@)
}

/// The line at which a documentation scan that begins at line `from` stops:
/// the first line from there on that is no documentation line, or the end.
pub open spec fn doc_scan_end(lines: Seq<Seq<char>>, delimiter: Seq<char>, from: int) -> int
    decreases lines.len() - from,
{
    if 0 <= from < lines.len() && is_doc_line(lines[from], delimiter) {
        doc_scan_end(lines, delimiter, from + 1)
    } else {
        from
    }
}

/// The line at which a code scan that begins at line `from` stops: the first
/// line from there on that is empty or a documentation line, or the end.
pub open spec fn code_scan_end(lines: Seq<Seq<char>>, delimiter: Seq<char>, from: int) -> int
    decreases lines.len() - from,
{
    if 0 <= from < lines.len() && is_code_line(lines[from], delimiter) {
        code_scan_end(lines, delimiter, from + 1)
    } else {
        from
    }
}

/// The documentation gathered from the lines `from..to`.
pub open spec fn doc_text(lines: Seq<Seq<char>>, delimiter: Seq<char>, from: int, to: int) -> Seq<
    char,
>
    decreases to - from,
{
    if from >= to {
        Seq::empty()
    } else {
        doc_text(lines, delimiter, from, to - 1) + doc_line_text(lines[to - 1], delimiter)
    }
}

/// The code gathered from the lines `from..to`.
pub open spec fn code_text(lines: Seq<Seq<char>>, from: int, to: int) -> Seq<char>
    decreases to - from,
{
    if from >= to {
        Seq::empty()
    } else {
        code_text(lines, from, to - 1) + code_line_text(lines[to - 1])
    }
}

/// The section that begins at the non-empty line `from`.
pub open spec fn span_at(lines: Seq<Seq<char>>, delimiter: Seq<char>, from: int) -> Span {
    let mid = doc_scan_end(lines, delimiter, from);
    Span { start: from, mid, end: code_scan_end(lines, delimiter, mid) }
}

/// The sections of the lines from `from` on.
pub open spec fn spans_from(lines: Seq<Seq<char>>, delimiter: Seq<char>, from: int) -> Seq<Span>
    decreases lines.len() - from,
{
    if from < 0 || from >= lines.len() {
        Seq::empty()
    } else if lines[from].len() == 0 {
        spans_from(lines, delimiter, from + 1)
    } else {
        proof {
            lemma_span_advances(lines, delimiter, from);
        }
        seq![span_at(lines, delimiter, from)] + spans_from(
            lines,
            delimiter,
            span_at(lines, delimiter, from).end,
        )
    }
}

/// The documentation and the code of the section `span`.
pub open spec fn block_of(lines: Seq<Seq<char>>, delimiter: Seq<char>, span: Span) -> (
    Seq<char>,
    Seq<char>,
) {
    (doc_text(lines, delimiter, span.start, span.mid), code_text(lines, span.mid, span.end))
}

/// The documentation and the code of each section of the lines from `from`
/// on.
pub open spec fn blocks_from(lines: Seq<Seq<char>>, delimiter: Seq<char>, from: int) -> Seq<
    (Seq<char>, Seq<char>),
> {
    spans_from(lines, delimiter, from).map_values(|span: Span| block_of(lines, delimiter, span))
}

/// The documentation and the code of each section of `lines`, in order.
pub open spec fn blocks(lines: Seq<Seq<char>>, delimiter: Seq<char>) -> Seq<
    (Seq<char>, Seq<char>),
> {
    blocks_from(lines, delimiter, 0)
}

/// A documentation scan stops at or after the line it begins at, within the
/// file, on a line that is no documentation line; the lines it passes are
/// documentation lines.
pub proof fn lemma_doc_scan(lines: Seq<Seq<char>>, delimiter: Seq<char>, from: int)
    requires
        0 <= from <= lines.len(),
    ensures
        from <= doc_scan_end(lines, delimiter, from) <= lines.len(),
        forall|i: int|
            from <= i < doc_scan_end(lines, delimiter, from) ==> is_doc_line(
                #[trigger] lines[i],
                delimiter,
            ),
        doc_scan_end(lines, delimiter, from) < lines.len() ==> !is_doc_line(
            lines[doc_scan_end(lines, delimiter, from)],
            delimiter,
        ),
    decreases lines.len() - from,
{
    if from < lines.len() && is_doc_line(lines[from], delimiter) {
        lemma_doc_scan(lines, delimiter, from + 1);
    }
}

/// A code scan stops at or after the line it begins at, within the file, on a
/// line that is no code line; the lines it passes are code lines.
pub proof fn lemma_code_scan(lines: Seq<Seq<char>>, delimiter: Seq<char>, from: int)
    requires
        0 <= from <= lines.len(),
    ensures
        from <= code_scan_end(lines, delimiter, from) <= lines.len(),
        forall|i: int|
            from <= i < code_scan_end(lines, delimiter, from) ==> is_code_line(
                #[trigger] lines[i],
                delimiter,
            ),
        code_scan_end(lines, delimiter, from) < lines.len() ==> !is_code_line(
            lines[code_scan_end(lines, delimiter, from)],
            delimiter,
        ),
    decreases lines.len() - from,
{
    if from < lines.len() && is_code_line(lines[from], delimiter) {
        lemma_code_scan(lines, delimiter, from + 1);
    }
}

/// The section that begins at a non-empty line holds that line: its two
/// scans stop, in order, after it and within the file.
pub proof fn lemma_span_advances(lines: Seq<Seq<char>>, delimiter: Seq<char>, from: int)
    requires
        0 <= from < lines.len(),
        lines[from].len() > 0,
    ensures
        from <= span_at(lines, delimiter, from).mid <= span_at(lines, delimiter, from).end
            <= lines.len(),
        from < span_at(lines, delimiter, from).end,
{
    lemma_doc_scan(lines, delimiter, from);
    lemma_code_scan(lines, delimiter, doc_scan_end(lines, delimiter, from));
}

/// Whether a section begins at line `at`: the line is not empty, and it is
/// the first of the file, or follows an empty line, or is a documentation
/// line that follows a line of code.
pub open spec fn begins_section(lines: Seq<Seq<char>>, delimiter: Seq<char>, at: int) -> bool {
    &&& 0 <= at < lines.len()
    &&& lines[at].len() > 0
    &&& (at == 0 || lines[at - 1].len() == 0 || (is_doc_line(lines[at], delimiter) && !is_doc_line(
        lines[at - 1],
        delimiter,
    )))
}

/// The number of lines in `from..to` at which a section begins.
pub open spec fn section_starts(
    lines: Seq<Seq<char>>,
    delimiter: Seq<char>,
    from: int,
    to: int,
) -> nat
    decreases to - from,
{
    if from >= to {
        0
    } else {
        section_starts(lines, delimiter, from, to - 1) + if begins_section(
            lines,
            delimiter,
            to - 1,
        ) {
            1nat
        } else {
            0nat
        }
    }
}

/// The lines of the sections `spans`, section after section.
pub open spec fn span_lines(lines: Seq<Seq<char>>, spans: Seq<Span>) -> Seq<Seq<char>>
    decreases spans.len(),
{
    if spans.len() == 0 {
        Seq::empty()
    } else {
        lines.subrange(spans[0].start, spans[0].end) + span_lines(lines, spans.drop_first())
    }
}

/// A documentation line is not empty where the delimiter is not.
pub proof fn lemma_doc_line_not_empty(line: Seq<char>, delimiter: Seq<char>)
    requires
        delimiter.len() > 0,
        is_doc_line(line, delimiter),
    ensures
        line.len() > 0,
{
    lemma_leading_white_space(line);
}

/// The section starts of two adjoining ranges add up.
proof fn lemma_section_starts_split(
    lines: Seq<Seq<char>>,
    delimiter: Seq<char>,
    from: int,
    mid: int,
    to: int,
)
    requires
        from <= mid <= to,
    ensures
        section_starts(lines, delimiter, from, to) == section_starts(lines, delimiter, from, mid)
            + section_starts(lines, delimiter, mid, to),
    decreases to - mid,
{
    if mid < to {
        lemma_section_starts_split(lines, delimiter, from, mid, to - 1);
    }
}

/// A range in which no section begins has no section starts.
proof fn lemma_section_starts_none(
    lines: Seq<Seq<char>>,
    delimiter: Seq<char>,
    from: int,
    to: int,
)
    requires
        forall|at: int| from <= at < to ==> !begins_section(lines, delimiter, at),
    ensures
        section_starts(lines, delimiter, from, to) == 0,
    decreases to - from,
{
    if from < to {
        lemma_section_starts_none(lines, delimiter, from, to - 1);
    }
}

/// Within a section no other begins, and after it a line is empty or begins
/// the next.
proof fn lemma_span_is_one_section(lines: Seq<Seq<char>>, delimiter: Seq<char>, from: int)
    requires
        delimiter.len() > 0,
        0 <= from < lines.len(),
        lines[from].len() > 0,
    ensures
        forall|at: int|
            from < at < span_at(lines, delimiter, from).end ==> !begins_section(
                lines,
                delimiter,
                at,
            ),
        forall|at: int|
            from <= at < span_at(lines, delimiter, from).end ==> (#[trigger] lines[at]).len() > 0,
        span_at(lines, delimiter, from).end < lines.len() ==> lines[span_at(
            lines,
            delimiter,
            from,
        ).end].len() == 0 || begins_section(lines, delimiter, span_at(lines, delimiter, from).end),
{
    let span = span_at(lines, delimiter, from);
    lemma_doc_scan(lines, delimiter, from);
    lemma_code_scan(lines, delimiter, span.mid);
    assert forall|at: int| from <= at < span.end implies (#[trigger] lines[at]).len() > 0 by {
        if at < span.mid {
            lemma_doc_line_not_empty(lines[at], delimiter);
        }
    }
    assert forall|at: int| from < at < span.end implies !begins_section(lines, delimiter, at) by {
        assert(lines[at - 1].len() > 0);
        if at < span.mid {
            assert(is_doc_line(lines[at - 1], delimiter));
        } else {
            assert(is_code_line(lines[at], delimiter));
        }
    }
    if span.end < lines.len() && lines[span.end].len() > 0 {
        assert(is_doc_line(lines[span.end], delimiter));
        assert(span.mid < span.end);
        assert(is_code_line(lines[span.end - 1], delimiter));
    }
}

/// From a line on that is empty or begins a section, the sections are as
/// many as the lines at which one begins.
proof fn lemma_count_from(lines: Seq<Seq<char>>, delimiter: Seq<char>, from: int)
    requires
        delimiter.len() > 0,
        0 <= from <= lines.len(),
        from < lines.len() ==> lines[from].len() == 0 || begins_section(lines, delimiter, from),
    ensures
        spans_from(lines, delimiter, from).len() == section_starts(
            lines,
            delimiter,
            from,
            lines.len() as int,
        ),
    decreases lines.len() - from,
{
    let len = lines.len() as int;
    if from < len {
        if lines[from].len() == 0 {
            lemma_count_from(lines, delimiter, from + 1);
            lemma_section_starts_split(lines, delimiter, from, from + 1, len);
            assert(section_starts(lines, delimiter, from, from + 1) == 0) by {
                lemma_section_starts_none(lines, delimiter, from, from + 1);
            }
        } else {
            let end = span_at(lines, delimiter, from).end;
            lemma_span_advances(lines, delimiter, from);
            lemma_span_is_one_section(lines, delimiter, from);
            lemma_count_from(lines, delimiter, end);
            lemma_section_starts_split(lines, delimiter, from, from + 1, len);
            lemma_section_starts_split(lines, delimiter, from + 1, end, len);
            lemma_section_starts_none(lines, delimiter, from + 1, end);
            assert(section_starts(lines, delimiter, from, from + 1) == 1) by {
                assert(section_starts(lines, delimiter, from, from) == 0);
            }
        }
    }
}

/// The sections of a file are as many as the lines at which a section
/// begins: the non-empty lines that stand first, or after an empty line, or,
/// as documentation, after code. They are not as many as the paragraphs that
/// empty lines part.
pub proof fn lemma_section_count(lines: Seq<Seq<char>>, delimiter: Seq<char>)
    requires
        delimiter.len() > 0,
    ensures
        blocks(lines, delimiter).len() == section_starts(
            lines,
            delimiter,
            0,
            lines.len() as int,
        ),
{
    lemma_count_from(lines, delimiter, 0);
}

/// The test that tells the lines that are not empty.
pub open spec fn not_empty() -> spec_fn(Seq<char>) -> bool {
    |line: Seq<char>| line.len() > 0
}

/// Lines of which none is empty are all kept.
proof fn lemma_keeps_all(lines: Seq<Seq<char>>)
    requires
        forall|i: int| 0 <= i < lines.len() ==> (#[trigger] lines[i]).len() > 0,
    ensures
        lines.filter(not_empty()) == lines,
    decreases lines.len(),
{
    reveal(Seq::filter);
    if lines.len() > 0 {
        let front = lines.drop_last();
        assert forall|i: int| 0 <= i < front.len() implies (#[trigger] front[i]).len() > 0 by {
            assert(front[i] == lines[i]);
        }
        lemma_keeps_all(front);
        assert(not_empty()(lines.last()));
        assert(front.push(lines.last()) =~= lines);
    }
}

/// From a line on, the lines of the sections are the lines that are not
/// empty.
proof fn lemma_span_lines_from(lines: Seq<Seq<char>>, delimiter: Seq<char>, from: int)
    requires
        delimiter.len() > 0,
        0 <= from <= lines.len(),
    ensures
        span_lines(lines, spans_from(lines, delimiter, from)) == lines.skip(from).filter(
            not_empty(),
        ),
    decreases lines.len() - from,
{
    let len = lines.len() as int;
    let tail = lines.skip(from);
    if from >= len {
        reveal(Seq::filter);
        assert(tail.len() == 0);
    } else if lines[from].len() == 0 {
        lemma_span_lines_from(lines, delimiter, from + 1);
        let head = seq![lines[from]];
        assert(tail =~= head + lines.skip(from + 1));
        Seq::filter_distributes_over_add(head, lines.skip(from + 1), not_empty());
        assert(head.filter(not_empty()) =~= Seq::<Seq<char>>::empty()) by {
            reveal_with_fuel(Seq::filter, 2);
            assert(head.drop_last().len() == 0);
            assert(!not_empty()(head.last()));
        }
        assert(Seq::<Seq<char>>::empty() + lines.skip(from + 1).filter(not_empty())
            =~= lines.skip(from + 1).filter(not_empty()));
    } else {
        let span = span_at(lines, delimiter, from);
        let rest = spans_from(lines, delimiter, span.end);
        lemma_span_advances(lines, delimiter, from);
        lemma_span_is_one_section(lines, delimiter, from);
        lemma_span_lines_from(lines, delimiter, span.end);
        let body = lines.subrange(from, span.end);
        assert(tail =~= body + lines.skip(span.end));
        Seq::filter_distributes_over_add(body, lines.skip(span.end), not_empty());
        assert forall|i: int| 0 <= i < body.len() implies (#[trigger] body[i]).len() > 0 by {
            assert(body[i] == lines[from + i]);
        }
        lemma_keeps_all(body);
        assert((seq![span] + rest).drop_first() =~= rest);
    }
}

/// The lines of the sections of a file, section after section, are the
/// lines of the file without the empty ones.
pub proof fn lemma_sections_hold_all_but_empty_lines(lines: Seq<Seq<char>>, delimiter: Seq<char>)
    requires
        delimiter.len() > 0,
    ensures
        span_lines(lines, spans_from(lines, delimiter, 0)) == lines.filter(not_empty()),
{
    lemma_span_lines_from(lines, delimiter, 0);
    assert(lines.skip(0) =~= lines);
}

/// A run of code lines that ends at the end of the file, or before a line
/// that is no code line, is what a code scan passes.
proof fn lemma_code_scan_is(lines: Seq<Seq<char>>, delimiter: Seq<char>, from: int, to: int)
    requires
        0 <= from <= to <= lines.len(),
        forall|i: int| from <= i < to ==> is_code_line(#[trigger] lines[i], delimiter),
        to < lines.len() ==> !is_code_line(lines[to], delimiter),
    ensures
        code_scan_end(lines, delimiter, from) == to,
    decreases to - from,
{
    if from < to {
        lemma_code_scan_is(lines, delimiter, from + 1, to);
    }
}

/// The code gathered from a range of lines depends on those lines alone.
pub proof fn lemma_code_text_of_same_lines(
    lines: Seq<Seq<char>>,
    from: int,
    others: Seq<Seq<char>>,
    other_from: int,
    count: int,
)
    requires
        0 <= count,
        0 <= from && from + count <= lines.len(),
        0 <= other_from && other_from + count <= others.len(),
        lines.subrange(from, from + count) == others.subrange(other_from, other_from + count),
    ensures
        code_text(lines, from, from + count) == code_text(others, other_from, other_from + count),
    decreases count,
{
    if count > 0 {
        let mine = lines.subrange(from, from + count);
        let theirs = others.subrange(other_from, other_from + count);
        assert(lines.subrange(from, from + count - 1) =~= mine.take(count - 1));
        assert(others.subrange(other_from, other_from + count - 1) =~= theirs.take(count - 1));
        lemma_code_text_of_same_lines(lines, from, others, other_from, count - 1);
        assert(lines[from + count - 1] == mine[count - 1]);
        assert(others[other_from + count - 1] == theirs[count - 1]);
    }
}

/// One empty line between two runs of code parts them: the file has two
/// sections, neither with documentation, the first with the code before the
/// empty line and the second with the code after it.
pub proof fn lemma_empty_line_parts_code(
    first: Seq<Seq<char>>,
    second: Seq<Seq<char>>,
    delimiter: Seq<char>,
)
    requires
        first.len() > 0,
        second.len() > 0,
        forall|i: int| 0 <= i < first.len() ==> is_code_line(#[trigger] first[i], delimiter),
        forall|i: int| 0 <= i < second.len() ==> is_code_line(#[trigger] second[i], delimiter),
    ensures
        blocks(first + seq![Seq::<char>::empty()] + second, delimiter) == seq![
            (Seq::<char>::empty(), code_text(first, 0, first.len() as int)),
            (Seq::<char>::empty(), code_text(second, 0, second.len() as int)),
        ],
{
    let lines = first + seq![Seq::<char>::empty()] + second;
    let gap = first.len() as int;
    let len = lines.len() as int;
    assert forall|i: int| 0 <= i < gap implies is_code_line(#[trigger] lines[i], delimiter) by {
        assert(lines[i] == first[i]);
    }
    assert forall|i: int| gap < i < len implies is_code_line(#[trigger] lines[i], delimiter) by {
        assert(lines[i] == second[i - gap - 1]);
    }
    assert(lines[gap].len() == 0);
    assert(is_code_line(lines[0], delimiter));
    assert(is_code_line(lines[gap + 1], delimiter));
    lemma_code_scan_is(lines, delimiter, 0, gap);
    lemma_code_scan_is(lines, delimiter, gap + 1, len);
    let one = Span { start: 0, mid: 0, end: gap };
    let two = Span { start: gap + 1, mid: gap + 1, end: len };
    assert(span_at(lines, delimiter, 0) == one);
    assert(span_at(lines, delimiter, gap + 1) == two);
    assert(spans_from(lines, delimiter, len) =~= Seq::<Span>::empty());
    assert(spans_from(lines, delimiter, gap + 1) =~= seq![two]);
    assert(spans_from(lines, delimiter, gap) == spans_from(lines, delimiter, gap + 1));
    assert(spans_from(lines, delimiter, 0) =~= seq![one, two]);
    assert(lines[0].len() > 0);
    assert(lines.subrange(0, gap) =~= first.subrange(0, gap));
    lemma_code_text_of_same_lines(lines, 0, first, 0, gap);
    assert(lines.subrange(gap + 1, len) =~= second.subrange(0, second.len() as int));
    lemma_code_text_of_same_lines(lines, gap + 1, second, 0, second.len() as int);
    assert(doc_text(lines, delimiter, 0, 0) =~= Seq::<char>::empty());
    assert(doc_text(lines, delimiter, gap + 1, gap + 1) =~= Seq::<char>::empty());
    assert(blocks(lines, delimiter) =~= seq![
        (Seq::<char>::empty(), code_text(first, 0, first.len() as int)),
        (Seq::<char>::empty(), code_text(second, 0, second.len() as int)),
    ]);
}

/// The code gathered from a range of lines holds neither `<` nor `>`.
pub proof fn lemma_code_text_has_no_angle_bracket(lines: Seq<Seq<char>>, from: int, to: int)
    ensures
        has_no_angle_bracket(code_text(lines, from, to)),
    decreases to - from,
{
    if from < to {
        lemma_code_text_has_no_angle_bracket(lines, from, to - 1);
        lemma_code_line_text_has_no_angle_bracket(lines[to - 1]);
        lemma_concat_has_no_angle_bracket(
            code_text(lines, from, to - 1),
            code_line_text(lines[to - 1]),
        );
    }
}

/// The code of every section is escaped: it holds neither `<` nor `>`.
pub proof fn lemma_code_is_escaped(lines: Seq<Seq<char>>, delimiter: Seq<char>, from: int)
    ensures
        forall|k: int|
            0 <= k < blocks_from(lines, delimiter, from).len() ==> has_no_angle_bracket(
                (#[trigger] blocks_from(lines, delimiter, from)[k]).1,
            ),
    decreases lines.len() - from,
{
    let here = blocks_from(lines, delimiter, from);
    if 0 <= from < lines.len() {
        if lines[from].len() == 0 {
            lemma_code_is_escaped(lines, delimiter, from + 1);
            assert(here == blocks_from(lines, delimiter, from + 1));
        } else {
            let span = span_at(lines, delimiter, from);
            lemma_span_advances(lines, delimiter, from);
            lemma_code_is_escaped(lines, delimiter, span.end);
            lemma_code_text_has_no_angle_bracket(lines, span.mid, span.end);
            let rest = blocks_from(lines, delimiter, span.end);
            assert(spans_from(lines, delimiter, from) == seq![span] + spans_from(
                lines,
                delimiter,
                span.end,
            ));
            assert(here =~= seq![block_of(lines, delimiter, span)] + rest);
            assert forall|k: int| 0 <= k < here.len() implies has_no_angle_bracket(
                (#[trigger] here[k]).1,
            ) by {
                if k > 0 {
                    assert(here[k] == rest[k - 1]);
                }
            }
        }
    } else {
        assert(here.len() == 0);
    }
}

/// The lines that `texts` holds.
pub open spec fn line_views(texts: Seq<Vec<char>>) -> Seq<Seq<char>> {
    Seq::new(texts.len(), |i: int| texts[i]@)
}

/// The characters of each line of `lines`.
fn lines_chars(lines: &Vec<String>) -> (texts: Vec<Vec<char>>)
    ensures
        line_views(texts@) == lines.deep_view(),
{
    let mut texts: Vec<Vec<char>> = Vec::new();
    let mut i: usize = 0;
    while i < lines.len()
        invariant
            i <= lines.len(),
            texts.len() == i,
            forall|j: int| 0 <= j < i ==> (#[trigger] texts@[j])@ == lines@[j]@,
        decreases lines.len() - i,
    {
        texts.push(chars_of(lines[i].as_str()));
        i += 1;
    }
    assert(line_views(texts@) =~= lines.deep_view());
    texts
}

/// The documentation scan: takes the documentation lines that stand at
/// `cursor`, one after the other, and appends to `doc_buffer` what each adds.
/// It leaves `cursor` at the first line that is no documentation line.
pub fn parse_doc(
    lines: &Vec<Vec<char>>,
    delimiter: &Vec<char>,
    cursor: &mut usize,
    doc_buffer: &mut String,
)
    requires
        *old(cursor) <= lines.len(),
    ensures
        *final(cursor) == doc_scan_end(line_views(lines@), delimiter@, *old(cursor) as int),
        final(doc_buffer)@ == old(doc_buffer)@ + doc_text(
            line_views(lines@),
            delimiter@,
            *old(cursor) as int,
            *final(cursor) as int,
        ),
{
    let ghost all = line_views(lines@);
    let ghost start = *cursor as int;
    assert(old(doc_buffer)@ + Seq::<char>::empty() =~= old(doc_buffer)@);
    while *cursor < lines.len() && is_documentation(&lines[*cursor], delimiter)
        invariant
            start <= *cursor <= lines.len(),
            all == line_views(lines@),
            doc_scan_end(all, delimiter@, *cursor as int) == doc_scan_end(all, delimiter@, start),
            doc_buffer@ == old(doc_buffer)@ + doc_text(all, delimiter@, start, *cursor as int),
        decreases lines.len() - *cursor,
    {
        assert(all[*cursor as int] == lines@[*cursor as int]@);
        push_doc_line(doc_buffer, &lines[*cursor], delimiter);
        *cursor += 1;
        assert(doc_buffer@ =~= old(doc_buffer)@ + doc_text(all, delimiter@, start, *cursor as int));
    }
    assert(*cursor == doc_scan_end(all, delimiter@, start)) by {
        if *cursor < lines.len() {
            assert(all[*cursor as int] == lines@[*cursor as int]@);
        }
    }
}

/// The code scan: takes the code lines that stand at `cursor`, one after the
/// other, and appends to `code_buffer` what each adds. It leaves `cursor` at
/// the first line that is empty or a documentation line.
pub fn parse_code(
    lines: &Vec<Vec<char>>,
    delimiter: &Vec<char>,
    cursor: &mut usize,
    code_buffer: &mut String,
)
    requires
        *old(cursor) <= lines.len(),
    ensures
        *final(cursor) == code_scan_end(line_views(lines@), delimiter@, *old(cursor) as int),
        final(code_buffer)@ == old(code_buffer)@ + code_text(
            line_views(lines@),
            *old(cursor) as int,
            *final(cursor) as int,
        ),
{
    let ghost all = line_views(lines@);
    let ghost start = *cursor as int;
    assert(old(code_buffer)@ + Seq::<char>::empty() =~= old(code_buffer)@);
    while *cursor < lines.len() && is_code(&lines[*cursor], delimiter)
        invariant
            start <= *cursor <= lines.len(),
            all == line_views(lines@),
            code_scan_end(all, delimiter@, *cursor as int) == code_scan_end(
                all,
                delimiter@,
                start,
            ),
            code_buffer@ == old(code_buffer)@ + code_text(all, start, *cursor as int),
        decreases lines.len() - *cursor,
    {
        assert(all[*cursor as int] == lines@[*cursor as int]@);
        push_code_line(code_buffer, &lines[*cursor]);
        *cursor += 1;
        assert(code_buffer@ =~= old(code_buffer)@ + code_text(all, start, *cursor as int));
    }
    assert(*cursor == code_scan_end(all, delimiter@, start)) by {
        if *cursor < lines.len() {
            assert(all[*cursor as int] == lines@[*cursor as int]@);
        }
    }
}

/// Splits `lines` into sections under the comment delimiter `delimiter`, and
/// gathers the documentation and the code of each.
pub fn segment(lines: &Vec<String>, delimiter: &str) -> (sections: Vec<Block>)
    ensures
        block_views(sections@) == blocks(lines.deep_view(), delimiter@),
        sections.len() <= lines.len(),
{
    let texts = lines_chars(lines);
    let delim = chars_of(delimiter);
    let ghost all = lines.deep_view();
    let mut sections: Vec<Block> = Vec::new();
    let mut cursor: usize = 0;
    while cursor < texts.len()
        invariant
            cursor <= texts.len(),
            line_views(texts@) == all,
            delim@ == delimiter@,
            sections.len() <= cursor,
            block_views(sections@) + blocks_from(all, delim@, cursor as int) == blocks(
                all,
                delim@,
            ),
        decreases texts.len() - cursor,
    {
        assert(all[cursor as int] == texts@[cursor as int]@);
        if texts[cursor].len() == 0 {
            cursor += 1;
        } else {
            let ghost start = cursor as int;
            let ghost span = span_at(all, delim@, start);
            proof {
                lemma_span_advances(all, delim@, start);
            }
            let mut doc = String::new();
            let mut code = String::new();
            parse_doc(&texts, &delim, &mut cursor, &mut doc);
            parse_code(&texts, &delim, &mut cursor, &mut code);
            let ghost before = sections@;
            sections.push(Block { doc, code });
            proof {
                let rest = spans_from(all, delim@, span.end);
                let f = |s: Span| block_of(all, delim@, s);
                assert(doc@ =~= block_of(all, delim@, span).0);
                assert(code@ =~= block_of(all, delim@, span).1);
                assert(spans_from(all, delim@, start) == seq![span] + rest);
                assert((seq![span] + rest).map_values(f) =~= seq![f(span)] + rest.map_values(f));
                assert(block_views(sections@) =~= block_views(before) + seq![f(span)]);
                assert(block_views(sections@) + blocks_from(all, delim@, span.end)
                    =~= block_views(before) + blocks_from(all, delim@, start));
            }
        }
    }
    assert(blocks_from(all, delim@, cursor as int) =~= Seq::empty());
    assert(block_views(sections@) + Seq::<(Seq<char>, Seq<char>)>::empty() =~= block_views(
        sections@,
    ));
    sections
}

} // verus!
