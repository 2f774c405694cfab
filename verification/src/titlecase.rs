//! Title-casing of heading labels derived from file and directory names:
//! each run of characters after a space/hyphen/underscore boundary starts
//! with a capital letter, and runs of separators collapse to single
//! spaces. Capitalization is the ASCII letter map; other characters are
//! kept as they are.

use vstd::prelude::*;
use vstd::string::StrSliceExecFns;

verus! {

/// The word-boundary characters.
pub open spec fn is_separator(c: char) -> bool {
    c == ' ' || c == '-' || c == '_'
}

fn is_separator_exec(c: char) -> (b: bool)
    ensures
        b == is_separator(c),
{
    c == ' ' || c == '-' || c == '_'
}

/// The ASCII uppercase map: lowercase letters are capitalized, every
/// other character is left unchanged.
pub open spec fn upper_char(c: char) -> char {
    match c {
        'a' => 'A',
        'b' => 'B',
        'c' => 'C',
        'd' => 'D',
        'e' => 'E',
        'f' => 'F',
        'g' => 'G',
        'h' => 'H',
        'i' => 'I',
        'j' => 'J',
        'k' => 'K',
        'l' => 'L',
        'm' => 'M',
        'n' => 'N',
        'o' => 'O',
        'p' => 'P',
        'q' => 'Q',
        'r' => 'R',
        's' => 'S',
        't' => 'T',
        'u' => 'U',
        'v' => 'V',
        'w' => 'W',
        'x' => 'X',
        'y' => 'Y',
        'z' => 'Z',
        _ => c,
    }
}

fn upper_char_exec(c: char) -> (r: char)
    ensures
        r == upper_char(c),
{
    match c {
        'a' => 'A',
        'b' => 'B',
        'c' => 'C',
        'd' => 'D',
        'e' => 'E',
        'f' => 'F',
        'g' => 'G',
        'h' => 'H',
        'i' => 'I',
        'j' => 'J',
        'k' => 'K',
        'l' => 'L',
        'm' => 'M',
        'n' => 'N',
        'o' => 'O',
        'p' => 'P',
        'q' => 'Q',
        'r' => 'R',
        's' => 'S',
        't' => 'T',
        'u' => 'U',
        'v' => 'V',
        'w' => 'W',
        'x' => 'X',
        'y' => 'Y',
        'z' => 'Z',
        _ => c,
    }
}

/// Title-casing of `s`, carrying whether the previous character was a
/// word boundary (`after_sep` starts out true).
pub open spec fn title_case_text(s: Seq<char>, after_sep: bool) -> Seq<char>
    decreases s.len(),
{
    if s.len() == 0 {
        Seq::<char>::empty()
    } else if is_separator(s[0]) {
        if after_sep {
            title_case_text(s.drop_first(), true)
        } else {
            seq![' '] + title_case_text(s.drop_first(), true)
        }
    } else if after_sep {
        seq![upper_char(s[0])] + title_case_text(s.drop_first(), false)
    } else {
        seq![s[0]] + title_case_text(s.drop_first(), false)
    }
}

/// Derive a heading label from a name: capitalize the first letter of
/// each separator-delimited word and collapse separators to single
/// spaces.
pub fn to_title_case(s: &str) -> (r: String)
    ensures
        r@ == title_case_text(s@, true),
{
    let n = s.unicode_len();
    let mut out = String::new();
    let mut last_space = true;
    let mut i: usize = 0;
    proof {
        assert(s@.skip(0) =~= s@);
        assert(out@ + title_case_text(s@, true) =~= title_case_text(s@, true));
    }
    while i < n
        invariant
            n == s@.len(),
            i <= n,
            title_case_text(s@, true) == out@ + title_case_text(s@.skip(i as int), last_space),
        decreases n - i,
    {
        let c = s.get_char(i);
        proof {
            assert(s@.skip(i as int)[0] == s@[i as int]);
            assert(s@.skip(i as int).drop_first() =~= s@.skip(i + 1));
        }
        if is_separator_exec(c) {
            if !last_space {
                crate::textutil::push_char(&mut out, ' ');
            }
            last_space = true;
        } else {
            if last_space {
                let u = upper_char_exec(c);
                crate::textutil::push_char(&mut out, u);
            } else {
                crate::textutil::push_char(&mut out, c);
            }
            last_space = false;
        }
        i = i + 1;
        proof {
            assert(title_case_text(s@, true) == out@ + title_case_text(
                s@.skip(i as int),
                last_space,
            ));
        }
    }
    proof {
        assert(s@.skip(n as int) =~= Seq::<char>::empty());
        assert(out@ =~= title_case_text(s@, true));
    }
    out
}

/// Capitalizing is idempotent character by character.
pub proof fn lemma_upper_char_idempotent(c: char)
    ensures
        upper_char(upper_char(c)) == upper_char(c),
{
}

/// Capitalizing never produces a separator from a non-separator.
pub proof fn lemma_upper_char_not_separator(c: char)
    requires
        !is_separator(c),
    ensures
        !is_separator(upper_char(c)),
{
}

proof fn lemma_title_case_cons(x: char, t: Seq<char>, b: bool)
    ensures
        title_case_text(seq![x] + t, b) == (if is_separator(x) {
            if b {
                title_case_text(t, true)
            } else {
                seq![' '] + title_case_text(t, true)
            }
        } else if b {
            seq![upper_char(x)] + title_case_text(t, false)
        } else {
            seq![x] + title_case_text(t, false)
        }),
{
    let s = seq![x] + t;
    assert(s.len() == t.len() + 1);
    assert(s[0] == x);
    assert(s.drop_first() =~= t);
}

proof fn lemma_title_case_idem_rec(s: Seq<char>, b: bool)
    ensures
        title_case_text(title_case_text(s, b), b) == title_case_text(s, b),
    decreases s.len(),
{
    if s.len() == 0 {
    } else {
        let c = s[0];
        let rest = s.drop_first();
        if is_separator(c) {
            if b {
                lemma_title_case_idem_rec(rest, true);
            } else {
                lemma_title_case_idem_rec(rest, true);
                lemma_title_case_cons(' ', title_case_text(rest, true), false);
            }
        } else if b {
            lemma_title_case_idem_rec(rest, false);
            lemma_upper_char_idempotent(c);
            lemma_upper_char_not_separator(c);
            lemma_title_case_cons(upper_char(c), title_case_text(rest, false), true);
        } else {
            lemma_title_case_idem_rec(rest, false);
            lemma_title_case_cons(c, title_case_text(rest, false), false);
        }
    }
}

/// Title-casing is idempotent: applying it twice yields the same text as
/// applying it once.
pub proof fn lemma_title_case_idempotent(s: Seq<char>)
    ensures
        title_case_text(title_case_text(s, true), true) == title_case_text(s, true),
{
    lemma_title_case_idem_rec(s, true);
}

/// Separators are collapsed: no hyphen or underscore survives, and no
/// two spaces stand next to each other.
pub open spec fn separators_collapsed(t: Seq<char>) -> bool {
    &&& forall|i: int| 0 <= i < t.len() ==> t[i] != '-' && t[i] != '_'
    &&& forall|i: int| 0 <= i < t.len() - 1 ==> !(#[trigger] t[i] == ' ' && t[i + 1] == ' ')
}

proof fn lemma_title_case_collapsed_rec(s: Seq<char>, b: bool)
    ensures
        separators_collapsed(title_case_text(s, b)),
        b && title_case_text(s, b).len() > 0 ==> title_case_text(s, b)[0] != ' ',
    decreases s.len(),
{
    if s.len() == 0 {
    } else {
        let c = s[0];
        let rest = s.drop_first();
        if is_separator(c) {
            lemma_title_case_collapsed_rec(rest, true);
            if !b {
                let t = title_case_text(rest, true);
                let r = seq![' '] + t;
                assert forall|i: int| 0 <= i < r.len() implies r[i] != '-' && r[i] != '_' by {
                    if i > 0 {
                        assert(r[i] == t[i - 1]);
                    }
                }
                assert forall|i: int| 0 <= i < r.len() - 1 implies !(#[trigger] r[i] == ' ' && r[i + 1]
                    == ' ') by {
                    if i == 0 {
                        assert(r[1] == t[0]);
                    } else {
                        assert(r[i] == t[i - 1] && r[i + 1] == t[i]);
                    }
                }
            }
        } else {
            lemma_title_case_collapsed_rec(rest, false);
            let x = if b {
                upper_char(c)
            } else {
                c
            };
            if b {
                lemma_upper_char_not_separator(c);
            }
            let t = title_case_text(rest, false);
            let r = seq![x] + t;
            assert(!is_separator(x));
            assert forall|i: int| 0 <= i < r.len() implies r[i] != '-' && r[i] != '_' by {
                if i > 0 {
                    assert(r[i] == t[i - 1]);
                }
            }
            assert forall|i: int| 0 <= i < r.len() - 1 implies !(#[trigger] r[i] == ' ' && r[i + 1]
                == ' ') by {
                if i == 0 {
                    assert(r[0] == x && x != ' ');
                } else {
                    assert(r[i] == t[i - 1] && r[i + 1] == t[i]);
                }
            }
        }
    }
}

/// Title-cased text carries no hyphen or underscore and no run of two
/// spaces: separator runs collapse to single spaces.
pub proof fn lemma_title_case_collapses_separators(s: Seq<char>)
    ensures
        separators_collapsed(title_case_text(s, true)),
{
    lemma_title_case_collapsed_rec(s, true);
}

} // verus!
