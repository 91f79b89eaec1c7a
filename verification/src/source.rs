//! Source text: its lines, its comments, and what is left of it for the
//! scanner.
//!
//! A line ends at a line feed; a carriage return directly before that line
//! feed belongs to the line ending.  A line that holds `#` anywhere is a
//! comment and is dropped whole.  The other lines are joined, without
//! their endings and without their spaces.

use vstd::prelude::*;

verus! {

/// The number of characters before the first line feed of `text`, or the
/// length of `text` where it holds none.
pub open spec fn line_len(text: Seq<char>) -> nat
    decreases text.len(),
{
    if text.len() == 0 || text[0] == '\n' {
        0
    } else {
        1 + line_len(text.skip(1))
    }
}

/// The first line of `text`, without its line ending.
pub open spec fn first_line(text: Seq<char>) -> Seq<char> {
    let n = line_len(text) as int;
    if 0 < n < text.len() && text[n - 1] == '\r' {
        text.take(n - 1)
    } else {
        text.take(n)
    }
}

/// What follows the first line of `text` and its line ending.
pub open spec fn after_first_line(text: Seq<char>) -> Seq<char> {
    let n = line_len(text) as int;
    if n < text.len() {
        text.skip(n + 1)
    } else {
        Seq::empty()
    }
}

/// The lines of `text`, without their line endings.  A line ending at the
/// very end of the text starts no further line, and the empty text has no
/// line.
pub open spec fn lines(text: Seq<char>) -> Seq<Seq<char>>
    decreases text.len(),
{
    if text.len() == 0 {
        Seq::empty()
    } else {
        seq![first_line(text)] + lines(after_first_line(text))
    }
}

/// Whether a line is a comment.
pub open spec fn is_comment(line: Seq<char>) -> bool {
    line.contains('#')
}

/// A line without its spaces.
pub open spec fn without_spaces(line: Seq<char>) -> Seq<char> {
    line.filter(|c: char| c != ' ')
}

/// What a line contributes to the cleaned text: nothing if it is a
/// comment, else its characters other than spaces.
pub open spec fn kept(line: Seq<char>) -> Seq<char> {
    if is_comment(line) {
        Seq::empty()
    } else {
        without_spaces(line)
    }
}

/// Whether a character is white space, as Unicode defines it.
pub open spec fn is_whitespace(c: char) -> bool {
    let code = c as int;
    ||| 0x09 <= code <= 0x0D
    ||| code == 0x20
    ||| code == 0x85
    ||| code == 0xA0
    ||| code == 0x1680
    ||| 0x2000 <= code <= 0x200A
    ||| code == 0x2028
    ||| code == 0x2029
    ||| code == 0x202F
    ||| code == 0x205F
    ||| code == 0x3000
}

/// Whether a line holds nothing but white space.
pub open spec fn is_blank(line: Seq<char>) -> bool {
    forall|j: int| 0 <= j < line.len() ==> is_whitespace(#[trigger] line[j])
}

/// The text that is scanned for instructions: the lines of `text` that are
/// no comments, each without its spaces, joined in order.
pub open spec fn cleaned(text: Seq<char>) -> Seq<char> {
    lines(text).map_values(|line: Seq<char>| kept(line)).flatten()
}

/// The first line stops before the first line feed, and at nothing else.
pub proof fn lemma_line_len(text: Seq<char>)
    ensures
        line_len(text) <= text.len(),
        forall|k: int| 0 <= k < line_len(text) ==> text[k] != '\n',
        line_len(text) < text.len() ==> text[line_len(text) as int] == '\n',
    decreases text.len(),
{
    if text.len() == 0 || text[0] == '\n' {
    } else {
        let tail = text.skip(1);
        lemma_line_len(tail);
        assert forall|k: int| 0 <= k < line_len(text) implies text[k] != '\n' by {
            if k > 0 {
                assert(text[k] == tail[k - 1]);
            }
        }
    }
}

/// A position is the end of the first line if no line feed comes before it
/// and it is a line feed or the end of the text.
pub proof fn lemma_line_len_unique(text: Seq<char>, n: int)
    requires
        0 <= n <= text.len(),
        forall|k: int| 0 <= k < n ==> text[k] != '\n',
        n < text.len() ==> text[n] == '\n',
    ensures
        line_len(text) == n,
{
    lemma_line_len(text);
}

/// The cleaned text, line by line: what the first line contributes, then the
/// cleaned rest.
pub proof fn lemma_cleaned_by_line(text: Seq<char>)
    requires
        text.len() > 0,
    ensures
        cleaned(text) == kept(first_line(text)) + cleaned(after_first_line(text)),
{
    let keep = |line: Seq<char>| kept(line);
    let all = lines(text).map_values(keep);
    let later = lines(after_first_line(text)).map_values(keep);
    assert(all.drop_first() =~= later);
}

/// The characters of a string, in order.
pub fn chars_of(text: &str) -> (chars: Vec<char>)
    ensures
        chars@ == text@,
{
    let mut chars: Vec<char> = Vec::new();
    for c in it: text.chars()
        invariant
            chars@ == it.seq().take(it.index() as int),
            it.seq() == text@,
    {
        chars.push(c);
    }
    chars
}

/// Removes comments, line endings and spaces from source text.
pub fn clean(text: &Vec<char>) -> (out: Vec<char>)
    ensures
        out@ == cleaned(text@),
{
    let mut out: Vec<char> = Vec::new();
    let mut pos: usize = 0;
    assert(text@.skip(0) =~= text@);
    while pos < text.len()
        invariant
            pos <= text.len(),
            out@ + cleaned(text@.skip(pos as int)) == cleaned(text@),
        decreases text.len() - pos,
    {
        let ghost rest = text@.skip(pos as int);
        let ghost done = out@;
        // Find the end of the line that starts at `pos`, and whether the
        // line holds a comment marker.
        let mut end: usize = pos;
        let mut comment: bool = false;
        while end < text.len() && text[end] != '\n'
            invariant
                pos <= end <= text.len(),
                forall|k: int| pos <= k < end ==> text[k] != '\n',
                comment <==> exists|k: int| pos <= k < end && text[k] == '#',
            decreases text.len() - end,
        {
            if text[end] == '#' {
                comment = true;
            }
            end += 1;
        }
        let terminated: bool = end < text.len();
        let stop: usize = if terminated && end > pos && text[end - 1] == '\r' {
            end - 1
        } else {
            end
        };
        proof {
            lemma_line_len_unique(rest, end - pos);
            assert(first_line(rest) =~= text@.subrange(pos as int, stop as int));
            let line = first_line(rest);
            if comment {
                let k = choose|k: int| pos <= k < end && text[k] == '#';
                assert(line[k - pos] == '#');
            }
        }
        if !comment {
            let mut k: usize = pos;
            while k < stop
                invariant
                    pos <= k <= stop <= text.len(),
                    out@ == done + without_spaces(text@.subrange(pos as int, k as int)),
                decreases stop - k,
            {
                proof {
                    let seen = text@.subrange(pos as int, k as int);
                    assert(text@.subrange(pos as int, k + 1) =~= seen.push(text[k as int]));
                    seen.lemma_filter_push(text[k as int], |c: char| c != ' ');
                }
                if text[k] != ' ' {
                    out.push(text[k]);
                }
                k += 1;
            }
        }
        pos = if terminated {
            end + 1
        } else {
            end
        };
        proof {
            lemma_cleaned_by_line(rest);
            assert(text@.skip(pos as int) =~= after_first_line(rest));
        }
    }
    out
}

} // verus!
