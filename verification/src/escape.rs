//! Escaping of heading labels for the output markup. Each special
//! character is replaced by a rendering sequence; all other characters
//! pass through unchanged. The substitution is injective: two distinct
//! labels never escape to the same text.

use vstd::prelude::*;
use vstd::string::StrSliceExecFns;

verus! {

/// The characters the escaper rewrites.
pub open spec fn is_special(c: char) -> bool {
    c == '&' || c == '%' || c == '$' || c == '#' || c == '_' || c == '{' || c == '}' || c == '~'
        || c == '^' || c == '\\'
}

/// The rendering sequence one character escapes to.
pub open spec fn escape_char(c: char) -> Seq<char> {
    if c == '&' {
        seq!['\\', '&']
    } else if c == '%' {
        seq!['\\', '%']
    } else if c == '$' {
        seq!['\\', '$']
    } else if c == '#' {
        seq!['\\', '#']
    } else if c == '_' {
        seq!['\\', '_']
    } else if c == '{' {
        seq!['\\', '{']
    } else if c == '}' {
        seq!['\\', '}']
    } else if c == '~' {
        seq!['\\', 't', 'e', 'x', 't', 't', 't', '{', '\\', '~', '{', '}', '}']
    } else if c == '^' {
        seq!['\\', '^', '{', '}']
    } else if c == '\\' {
        seq!['$', '\\', 'b', 'a', 'c', 'k', 's', 'l', 'a', 's', 'h', '$']
    } else {
        seq![c]
    }
}

/// A whole string escaped, character by character.
pub open spec fn escape_text(s: Seq<char>) -> Seq<char>
    decreases s.len(),
{
    if s.len() == 0 {
        Seq::<char>::empty()
    } else {
        escape_char(s[0]) + escape_text(s.drop_first())
    }
}

pub proof fn lemma_escape_text_push(s: Seq<char>, c: char)
    ensures
        escape_text(s.push(c)) == escape_text(s) + escape_char(c),
    decreases s.len(),
{
    if s.len() == 0 {
        assert(s.push(c).len() == 1);
        assert(s.push(c)[0] == c);
        assert(s.push(c).drop_first() =~= Seq::<char>::empty());
        assert(escape_text(s.push(c)) == escape_char(c) + escape_text(Seq::<char>::empty()));
        assert(escape_text(s.push(c)) =~= escape_text(s) + escape_char(c));
    } else {
        assert(s.push(c).drop_first() =~= s.drop_first().push(c));
        lemma_escape_text_push(s.drop_first(), c);
        assert(escape_text(s.push(c)) =~= escape_text(s) + escape_char(c));
    }
}

/// Escape a heading label: every special character is replaced by its
/// rendering sequence, all others pass through unchanged.
pub fn escape(s: &str) -> (r: String)
    ensures
        r@ == escape_text(s@),
{
    let n = s.unicode_len();
    let mut out = String::new();
    let mut i: usize = 0;
    while i < n
        invariant
            n == s@.len(),
            i <= n,
            out@ == escape_text(s@.take(i as int)),
        decreases n - i,
    {
        let c = s.get_char(i);
        match c {
            '&' => crate::textutil::push_str(&mut out, "\\&"),
            '%' => crate::textutil::push_str(&mut out, "\\%"),
            '$' => crate::textutil::push_str(&mut out, "\\$"),
            '#' => crate::textutil::push_str(&mut out, "\\#"),
            '_' => crate::textutil::push_str(&mut out, "\\_"),
            '{' => crate::textutil::push_str(&mut out, "\\{"),
            '}' => crate::textutil::push_str(&mut out, "\\}"),
            '~' => crate::textutil::push_str(&mut out, "\\texttt{\\~{}}"),
            '^' => crate::textutil::push_str(&mut out, "\\^{}"),
            '\\' => crate::textutil::push_str(&mut out, "$\\backslash$"),
            _ => crate::textutil::push_char(&mut out, c),
        }
        proof {
            reveal_strlit("\\&");
            reveal_strlit("\\%");
            reveal_strlit("\\$");
            reveal_strlit("\\#");
            reveal_strlit("\\_");
            reveal_strlit("\\{");
            reveal_strlit("\\}");
            reveal_strlit("\\texttt{\\~{}}");
            reveal_strlit("\\^{}");
            reveal_strlit("$\\backslash$");
            lemma_escape_text_push(s@.take(i as int), c);
            assert(s@.take(i + 1) =~= s@.take(i as int).push(c));
            assert(out@ =~= escape_text(s@.take(i + 1)));
        }
        i = i + 1;
    }
    proof {
        assert(s@.take(n as int) =~= s@);
    }
    out
}

/// How far into `t` the rendering sequence of the first escaped character
/// reaches.
pub open spec fn first_code_len(t: Seq<char>) -> int {
    if t.len() == 0 {
        0
    } else if t[0] == '$' {
        12
    } else if t[0] == '\\' && t.len() >= 2 {
        if t[1] == 't' {
            13
        } else if t[1] == '^' {
            4
        } else {
            2
        }
    } else {
        1
    }
}

/// The character whose rendering sequence `t` starts with.
pub open spec fn first_code_char(t: Seq<char>) -> char {
    if t.len() == 0 {
        ' '
    } else if t[0] == '$' {
        '\\'
    } else if t[0] == '\\' && t.len() >= 2 {
        if t[1] == 't' {
            '~'
        } else if t[1] == '^' {
            '^'
        } else {
            t[1]
        }
    } else {
        t[0]
    }
}

/// The rendering sequences form a prefix code: the first character of
/// the input can be read back off the front of the escaped text.
pub proof fn lemma_code_prefix(c: char, rest: Seq<char>)
    ensures
        first_code_char(escape_char(c) + rest) == c,
        first_code_len(escape_char(c) + rest) == escape_char(c).len(),
        escape_char(c).len() >= 1,
{
    let t = escape_char(c) + rest;
    if is_special(c) {
        assert(t[0] == escape_char(c)[0]);
        assert(t[1] == escape_char(c)[1]);
    } else {
        assert(t[0] == c);
    }
}

/// The escaper is injective: distinct inputs give distinct escaped text.
/// Stated contrapositively: equal escaped texts come from equal inputs.
pub proof fn lemma_escape_injective(s1: Seq<char>, s2: Seq<char>)
    requires
        escape_text(s1) == escape_text(s2),
    ensures
        s1 == s2,
    decreases s1.len(),
{
    if s1.len() == 0 && s2.len() == 0 {
        assert(s1 =~= s2);
    } else if s1.len() == 0 {
        lemma_code_prefix(s2[0], escape_text(s2.drop_first()));
        assert(escape_text(s2).len() >= 1);
        assert(false);
    } else if s2.len() == 0 {
        lemma_code_prefix(s1[0], escape_text(s1.drop_first()));
        assert(false);
    } else {
        let t = escape_text(s1);
        lemma_code_prefix(s1[0], escape_text(s1.drop_first()));
        lemma_code_prefix(s2[0], escape_text(s2.drop_first()));
        assert(s1[0] == s2[0]);
        let len = escape_char(s1[0]).len();
        assert(escape_text(s1.drop_first()) =~= t.skip(len as int));
        assert(escape_text(s2.drop_first()) =~= t.skip(len as int));
        lemma_escape_injective(s1.drop_first(), s2.drop_first());
        assert(s1 =~= seq![s1[0]] + s1.drop_first());
        assert(s2 =~= seq![s2[0]] + s2.drop_first());
    }
}

} // verus!
