//! Writing text as the body of a string literal, and reading it back: the
//! scanner decodes exactly the escapes a writer needs, so any text written
//! with them reads back as itself.

use vstd::prelude::*;
use crate::scanner::{StringScan, escape_value, string_scan};

verus! {

/// How one character is written inside a string literal: a line break, a
/// tab, a quote and a backslash by their escapes, anything else as itself.
pub open spec fn escape_char(c: char) -> Seq<char> {
    if c == '\n' {
        seq!['\\', 'n']
    } else if c == '\t' {
        seq!['\\', 't']
    } else if c == '"' {
        seq!['\\', '"']
    } else if c == '\\' {
        seq!['\\', '\\']
    } else {
        seq![c]
    }
}

/// `x` written as the body of a string literal.
pub open spec fn escaped(x: Seq<char>) -> Seq<char>
    decreases x.len(),
{
    if x.len() == 0 { seq![] } else { escape_char(x[0]) + escaped(x.drop_first()) }
}

/// A string literal whose body is `x` written with escapes, and whose
/// closing quote follows, reads back as exactly `x`: it is closed just
/// after that quote, and none of its line breaks counts as a source line.
pub proof fn lemma_escaped_text_reads_back(s: Seq<char>, i: int, x: Seq<char>)
    requires
        0 <= i,
        i + escaped(x).len() < s.len(),
        s.subrange(i, i + escaped(x).len()) == escaped(x),
        s[i + escaped(x).len()] == '"',
    ensures
        string_scan(s, i) == (StringScan { closed: true, content: x, end: i + escaped(x).len() + 1, newlines: 0 }),
    decreases x.len(),
{
    let e = escaped(x);
    if x.len() == 0 {
        assert(s[i] == '"');
        assert(x =~= Seq::<char>::empty());
    } else {
        let c = x[0];
        let head = escape_char(c);
        let tail = escaped(x.drop_first());
        assert(e == head + tail);
        assert(e.len() == head.len() + tail.len());
        assert(s.subrange(i, i + e.len())[0] == s[i]);
        assert(s[i] == e[0]);
        assert(s[i + e.len()] == '"');
        if head.len() == 2 {
            assert(s[i] == '\\');
            assert(s.subrange(i, i + e.len())[1] == s[i + 1]);
            assert(s[i + 1] == e[1]);
            assert(s[i + 2 + tail.len()] == '"');
            assert(s.subrange(i + 2, i + 2 + tail.len()) =~= tail) by {
                assert forall|k: int| 0 <= k < tail.len() implies s[i + 2 + k] == tail[k] by {
                    assert(s.subrange(i, i + e.len())[2 + k] == e[2 + k]);
                }
            }
            lemma_escaped_text_reads_back(s, i + 2, x.drop_first());
            assert(escape_value(s[i + 1]) == seq![c]);
            assert(seq![c] + x.drop_first() =~= x);
            let rest = string_scan(s, i + 2);
            assert(string_scan(s, i) == (StringScan { content: escape_value(s[i + 1]) + rest.content, ..rest }));
        } else {
            assert(s[i + 1 + tail.len()] == '"');
            assert(s[i] == c);
            assert(s.subrange(i + 1, i + 1 + tail.len()) =~= tail) by {
                assert forall|k: int| 0 <= k < tail.len() implies s[i + 1 + k] == tail[k] by {
                    assert(s.subrange(i, i + e.len())[1 + k] == e[1 + k]);
                }
            }
            lemma_escaped_text_reads_back(s, i + 1, x.drop_first());
            assert(seq![c] + x.drop_first() =~= x);
            assert(s[i] != '\\' && s[i] != '"' && s[i] != '\n');
        }
    }
}

/// A backslash before any character other than `n`, `t`, a quote or a
/// backslash is no escape: both characters are kept, and the rest of the
/// body reads on as it would after them.
pub proof fn lemma_unknown_escape_kept(s: Seq<char>, i: int)
    requires
        0 <= i,
        i + 1 < s.len(),
        s[i] == '\\',
        s[i + 1] != 'n' && s[i + 1] != 't' && s[i + 1] != '"' && s[i + 1] != '\\',
    ensures
        string_scan(s, i).content == seq!['\\', s[i + 1]] + string_scan(s, i + 2).content,
        string_scan(s, i).closed == string_scan(s, i + 2).closed,
        string_scan(s, i).end == string_scan(s, i + 2).end,
        string_scan(s, i).newlines == string_scan(s, i + 2).newlines,
{
}

} // verus!
