//! Character-level text primitives: white-space trimming, prefix tests, and
//! the text that a documentation line or a code line contributes to a section.

use vstd::prelude::*;

verus! {

/// `String::push` appends one character to the end of the string.
pub assume_specification[ String::push ](s: &mut String, ch: char)
    ensures
        final(s)@ == old(s)@.push(ch),
;

/// Whether `c` has the Unicode `White_Space` property.
pub open spec fn is_white_space(c: char) -> bool {
    let n = c as u32;
    ||| 0x09 <= n <= 0x0D
    ||| n == 0x20
    ||| n == 0x85
    ||| n == 0xA0
    ||| n == 0x1680
    ||| 0x2000 <= n <= 0x200A
    ||| n == 0x2028
    ||| n == 0x2029
    ||| n == 0x202F
    ||| n == 0x205F
    ||| n == 0x3000
}

/// The number of white-space characters that `s` begins with.
pub open spec fn leading_white_space(s: Seq<char>) -> nat
    decreases s.len(),
{
    if s.len() > 0 && is_white_space(s[0]) {
        1 + leading_white_space(s.skip(1))
    } else {
        0
    }
}

/// `s` without its leading white space.
pub open spec fn trim_start(s: Seq<char>) -> Seq<char> {
    s.skip(leading_white_space(s) as int)
}

/// Whether `s` begins with `prefix`.
pub open spec fn starts_with(s: Seq<char>, prefix: Seq<char>) -> bool {
    prefix.len() <= s.len() && s.take(prefix.len() as int) == prefix
}

/// The marker of an outer documentation comment, `///`.
pub open spec fn doc_marker() -> Seq<char> {
    seq!['/', '/', '/']
}

/// A documentation line begins, after its leading white space, with the
/// comment delimiter.
pub open spec fn is_doc_line(line: Seq<char>, delimiter: Seq<char>) -> bool {
    starts_with(trim_start(line), delimiter)
}

/// A code line is a non-empty line that is not a documentation line.
pub open spec fn is_code_line(line: Seq<char>, delimiter: Seq<char>) -> bool {
    line.len() > 0 && !is_doc_line(line, delimiter)
}

/// What a documentation line adds to the documentation of its section: the
/// trimmed line as it stands when it begins with `///`, otherwise the trimmed
/// line without the delimiter it begins with; a newline follows either.
pub open spec fn doc_line_text(line: Seq<char>, delimiter: Seq<char>) -> Seq<char> {
    let trimmed = trim_start(line);
    if starts_with(trimmed, doc_marker()) {
        trimmed.push('\n')
    } else {
        trimmed.skip(delimiter.len() as int).push('\n')
    }
}

/// What stands for one character of code: `&lt` for `<`, `&gt` for `>`, and
/// the character itself otherwise.
pub open spec fn escape_char(c: char) -> Seq<char> {
    if c == '<' {
        seq!['&', 'l', 't']
    } else if c == '>' {
        seq!['&', 'g', 't']
    } else {
        seq![c]
    }
}

/// `s` with each of its characters escaped.
pub open spec fn escape(s: Seq<char>) -> Seq<char>
    decreases s.len(),
{
    if s.len() == 0 {
        Seq::empty()
    } else {
        escape(s.drop_last()) + escape_char(s.last())
    }
}

/// What a code line adds to the code of its section: the escaped line, and a
/// newline unless the line ends in one.
pub open spec fn code_line_text(line: Seq<char>) -> Seq<char> {
    if line.len() > 0 && line.last() == '\n' {
        escape(line)
    } else {
        escape(line).push('\n')
    }
}

/// Whether `text` holds neither `<` nor `>`.
pub open spec fn has_no_angle_bracket(text: Seq<char>) -> bool {
    forall|i: int| 0 <= i < text.len() ==> text[i] != '<' && text[i] != '>'
}

/// The leading white space of `s` ends at the first character that is not
/// white space.
pub proof fn lemma_leading_white_space(s: Seq<char>)
    ensures
        leading_white_space(s) <= s.len(),
        forall|i: int| 0 <= i < leading_white_space(s) ==> is_white_space(#[trigger] s[i]),
        leading_white_space(s) < s.len() ==> !is_white_space(s[leading_white_space(s) as int]),
    decreases s.len(),
{
    if s.len() > 0 && is_white_space(s[0]) {
        let rest = s.skip(1);
        lemma_leading_white_space(rest);
        assert forall|i: int| 0 <= i < leading_white_space(s) implies is_white_space(
            #[trigger] s[i],
        ) by {
            if i > 0 {
                assert(s[i] == rest[i - 1]);
            }
        }
        if leading_white_space(s) < s.len() {
            assert(s[leading_white_space(s) as int] == rest[leading_white_space(rest) as int]);
        }
    }
}

/// A run of white space followed by the end of `s` or by another character
/// is the leading white space of `s`.
pub proof fn lemma_leading_white_space_is(s: Seq<char>, k: int)
    requires
        0 <= k <= s.len(),
        forall|i: int| 0 <= i < k ==> is_white_space(#[trigger] s[i]),
        k < s.len() ==> !is_white_space(s[k]),
    ensures
        leading_white_space(s) == k,
    decreases s.len(),
{
    if k > 0 {
        let rest = s.skip(1);
        assert(is_white_space(s[0]));
        assert forall|i: int| 0 <= i < k - 1 implies is_white_space(#[trigger] rest[i]) by {
            assert(rest[i] == s[i + 1]);
        }
        lemma_leading_white_space_is(rest, k - 1);
    }
}

/// Escaping goes character by character: the escape of a concatenation is
/// the concatenation of the escapes.
pub proof fn lemma_escape_concat(a: Seq<char>, b: Seq<char>)
    ensures
        escape(a + b) == escape(a) + escape(b),
    decreases b.len(),
{
    if b.len() == 0 {
        assert(a + b =~= a);
        assert(escape(a) + escape(b) =~= escape(a));
    } else {
        lemma_escape_concat(a, b.drop_last());
        assert((a + b).drop_last() =~= a + b.drop_last());
        assert((a + b).last() == b.last());
        assert(escape(a + b) =~= escape(a) + escape(b));
    }
}

/// Each `<` and each `>` of a text is replaced, where it stands, by `&lt` and
/// `&gt`; every other character stays as it is.
pub proof fn lemma_escape_replaces_each(before: Seq<char>, c: char, after: Seq<char>)
    ensures
        escape(before.push(c) + after) == escape(before) + escape_char(c) + escape(after),
        c == '<' ==> escape_char(c) == seq!['&', 'l', 't'],
        c == '>' ==> escape_char(c) == seq!['&', 'g', 't'],
        c != '<' && c != '>' ==> escape_char(c) == seq![c],
{
    lemma_escape_concat(before.push(c), after);
    assert(before.push(c).drop_last() =~= before);
}

/// Escaped text holds neither `<` nor `>`.
pub proof fn lemma_escape_has_no_angle_bracket(s: Seq<char>)
    ensures
        has_no_angle_bracket(escape(s)),
    decreases s.len(),
{
    if s.len() > 0 {
        let head = escape(s.drop_last());
        let tail = escape_char(s.last());
        lemma_escape_has_no_angle_bracket(s.drop_last());
        lemma_concat_has_no_angle_bracket(head, tail);
    }
}

/// Two texts of which neither holds `<` or `>` hold none when joined.
pub proof fn lemma_concat_has_no_angle_bracket(head: Seq<char>, tail: Seq<char>)
    requires
        has_no_angle_bracket(head),
        has_no_angle_bracket(tail),
    ensures
        has_no_angle_bracket(head + tail),
{
    assert forall|i: int| 0 <= i < (head + tail).len() implies (head + tail)[i] != '<' && (head
        + tail)[i] != '>' by {
        if i < head.len() {
            assert((head + tail)[i] == head[i]);
        } else {
            assert((head + tail)[i] == tail[i - head.len()]);
        }
    }
}

/// What a code line adds to its section holds neither `<` nor `>`.
pub proof fn lemma_code_line_text_has_no_angle_bracket(line: Seq<char>)
    ensures
        has_no_angle_bracket(code_line_text(line)),
{
    lemma_escape_has_no_angle_bracket(line);
    lemma_concat_has_no_angle_bracket(escape(line), seq!['\n']);
    assert(escape(line).push('\n') =~= escape(line) + seq!['\n']);
}

/// A line is its leading white space followed by what trimming leaves of it,
/// and that begins with no white space.
pub proof fn lemma_trim_start(line: Seq<char>)
    ensures
        leading_white_space(line) <= line.len(),
        line == line.take(leading_white_space(line) as int) + trim_start(line),
        forall|i: int| 0 <= i < leading_white_space(line) ==> is_white_space(#[trigger] line[i]),
        trim_start(line).len() > 0 ==> !is_white_space(trim_start(line)[0]),
{
    lemma_leading_white_space(line);
    assert(line =~= line.take(leading_white_space(line) as int) + trim_start(line));
}

/// A documentation line that begins, once trimmed, with `///` adds the
/// trimmed line as it stands, marker and all. Any other documentation line
/// adds the trimmed line without the delimiter that it begins with, and
/// without anything else taken from it. A newline follows either.
pub proof fn lemma_doc_line_text(line: Seq<char>, delimiter: Seq<char>)
    requires
        is_doc_line(line, delimiter),
    ensures
        starts_with(trim_start(line), doc_marker()) ==> doc_line_text(line, delimiter)
            == trim_start(line).push('\n'),
        !starts_with(trim_start(line), doc_marker()) ==> delimiter + doc_line_text(
            line,
            delimiter,
        ) == trim_start(line).push('\n'),
{
    let trimmed = trim_start(line);
    if !starts_with(trimmed, doc_marker()) {
        assert(trimmed =~= trimmed.take(delimiter.len() as int) + trimmed.skip(
            delimiter.len() as int,
        ));
        assert(delimiter + trimmed.skip(delimiter.len() as int).push('\n') =~= trimmed.push(
            '\n',
        ));
    }
}

/// Whether `c` is a white-space character.
pub fn is_whitespace(c: char) -> (b: bool)
    ensures
        b == is_white_space(c),
{
    let n: u32 = c as u32;
    (0x09 <= n && n <= 0x0D) || n == 0x20 || n == 0x85 || n == 0xA0 || n == 0x1680 || (0x2000 <= n
        && n <= 0x200A) || n == 0x2028 || n == 0x2029 || n == 0x202F || n == 0x205F || n == 0x3000
}

/// The characters of `s`, in order.
pub fn chars_of(s: &str) -> (v: Vec<char>)
    ensures
        v@ == s@,
{
    let mut v: Vec<char> = Vec::new();
    for c in it: s.chars()
        invariant
            v@ == it.seq().take(it.index() as int),
            it.seq() == s@,
    {
        v.push(c);
    }
    v
}

/// The string made of the characters of `v`, in order.
pub fn string_of(v: &Vec<char>) -> (s: String)
    ensures
        s@ == v@,
{
    assert(v@.subrange(0, v.len() as int) =~= v@);
    substring(v, 0, v.len())
}

/// The string made of the characters `from..to` of `v`.
pub fn substring(v: &Vec<char>, from: usize, to: usize) -> (s: String)
    requires
        from <= to <= v.len(),
    ensures
        s@ == v@.subrange(from as int, to as int),
{
    let mut s = String::new();
    let mut i: usize = from;
    while i < to
        invariant
            from <= i <= to <= v.len(),
            s@ == v@.subrange(from as int, i as int),
        decreases to - i,
    {
        s.push(v[i]);
        assert(v@.subrange(from as int, i + 1) =~= v@.subrange(from as int, i as int).push(
            v@[i as int],
        ));
        i += 1;
    }
    s
}

/// The number of white-space characters that `line` begins with.
pub fn leading_whitespace_len(line: &Vec<char>) -> (k: usize)
    ensures
        k == leading_white_space(line@),
        k <= line.len(),
{
    let mut k: usize = 0;
    while k < line.len() && is_whitespace(line[k])
        invariant
            k <= line.len(),
            forall|i: int| 0 <= i < k ==> is_white_space(#[trigger] line@[i]),
        decreases line.len() - k,
    {
        k += 1;
    }
    proof {
        lemma_leading_white_space_is(line@, k as int);
    }
    k
}

/// Whether `line`, from index `at` on, begins with `prefix`.
pub fn starts_with_at(line: &Vec<char>, at: usize, prefix: &Vec<char>) -> (b: bool)
    requires
        at <= line.len(),
    ensures
        b == starts_with(line@.skip(at as int), prefix@),
{
    if prefix.len() > line.len() - at {
        return false;
    }
    let ghost rest = line@.skip(at as int);
    let mut j: usize = 0;
    while j < prefix.len()
        invariant
            j <= prefix.len(),
            at + prefix.len() <= line.len(),
            rest == line@.skip(at as int),
            forall|t: int| 0 <= t < j ==> line@[at + t] == #[trigger] prefix@[t],
        decreases prefix.len() - j,
    {
        if line[at + j] != prefix[j] {
            assert(rest.take(prefix.len() as int)[j as int] == line@[at + j]);
            return false;
        }
        j += 1;
    }
    assert(rest.take(prefix.len() as int) =~= prefix@);
    true
}

/// Whether `line` is a documentation line under `delimiter`.
pub fn is_documentation(line: &Vec<char>, delimiter: &Vec<char>) -> (b: bool)
    ensures
        b == is_doc_line(line@, delimiter@),
{
    let k = leading_whitespace_len(line);
    starts_with_at(line, k, delimiter)
}

/// Whether `line` is a code line under `delimiter`.
pub fn is_code(line: &Vec<char>, delimiter: &Vec<char>) -> (b: bool)
    ensures
        b == is_code_line(line@, delimiter@),
{
    line.len() > 0 && !is_documentation(line, delimiter)
}

/// Appends to `buffer` what the documentation line `line` adds to its section.
pub fn push_doc_line(buffer: &mut String, line: &Vec<char>, delimiter: &Vec<char>)
    requires
        is_doc_line(line@, delimiter@),
    ensures
        final(buffer)@ == old(buffer)@ + doc_line_text(line@, delimiter@),
{
    let k = leading_whitespace_len(line);
    let marker: Vec<char> = vec!['/', '/', '/'];
    let from: usize = if starts_with_at(line, k, &marker) {
        k
    } else {
        k + delimiter.len()
    };
    let ghost text = line@.skip(from as int);
    assert(text == if starts_with(trim_start(line@), doc_marker()) {
        trim_start(line@)
    } else {
        trim_start(line@).skip(delimiter@.len() as int)
    }) by {
        assert(line@.skip(k as int).skip(delimiter@.len() as int) =~= line@.skip(
            k + delimiter@.len(),
        ));
    }
    let mut i: usize = from;
    while i < line.len()
        invariant
            from <= i <= line.len(),
            text == line@.skip(from as int),
            buffer@ == old(buffer)@ + text.take(i - from),
        decreases line.len() - i,
    {
        buffer.push(line[i]);
        assert(text.take(i + 1 - from) =~= text.take(i - from).push(line@[i as int]));
        i += 1;
    }
    buffer.push('\n');
    assert(text.take(line.len() - from) =~= text);
    assert(buffer@ =~= old(buffer)@ + text.push('\n'));
}

/// Appends to `buffer` what stands for the character `c` of a code line.
pub fn push_escaped(buffer: &mut String, c: char)
    ensures
        final(buffer)@ == old(buffer)@ + escape_char(c),
{
    if c == '<' {
        buffer.push('&');
        buffer.push('l');
        buffer.push('t');
    } else if c == '>' {
        buffer.push('&');
        buffer.push('g');
        buffer.push('t');
    } else {
        buffer.push(c);
    }
    assert(buffer@ =~= old(buffer)@ + escape_char(c));
}

/// Appends to `buffer` what the code line `line` adds to its section.
pub fn push_code_line(buffer: &mut String, line: &Vec<char>)
    ensures
        final(buffer)@ == old(buffer)@ + code_line_text(line@),
{
    let mut i: usize = 0;
    while i < line.len()
        invariant
            i <= line.len(),
            buffer@ == old(buffer)@ + escape(line@.take(i as int)),
        decreases line.len() - i,
    {
        push_escaped(buffer, line[i]);
        proof {
            let next = line@.take(i + 1);
            assert(next.drop_last() =~= line@.take(i as int));
            assert(next.last() == line@[i as int]);
            assert(buffer@ =~= old(buffer)@ + escape(next));
        }
        i += 1;
    }
    assert(line@.take(line.len() as int) =~= line@);
    if line.len() == 0 || line[line.len() - 1] != '\n' {
        buffer.push('\n');
        assert(buffer@ =~= old(buffer)@ + escape(line@).push('\n'));
    }
}

} // verus!
