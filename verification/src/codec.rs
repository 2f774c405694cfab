//! The indentation-coded text form of an outline: one entry per line,
//! the leading-tab count encodes the entry kind (0 tabs a section, 1 tab
//! a subsection, 2 or more a file), the rest of the line is the label or
//! path. Decoding trims trailing whitespace, drops blank lines, and
//! strips the leading tabs off the payload.

use crate::outline::EntryModel;
use crate::outline::OutlineEntry;
use crate::outline::outline_model;
use crate::textutil::is_ws;
use crate::textutil::trim_end;
use crate::textutil::trimmed_end_len;
use vstd::prelude::*;
use vstd::string::StrSliceExecFns;
use vstd::string::StringExecFns;

verus! {

/// Position of the first newline in `s`, or `s.len()` if there is none.
pub open spec fn first_nl(s: Seq<char>) -> nat
    decreases s.len(),
{
    if s.len() == 0 {
        0
    } else if s[0] == '\n' {
        0
    } else {
        1 + first_nl(s.drop_first())
    }
}

/// The characterization in the other direction: a newline-free prefix
/// followed by a newline (or the end) pins `first_nl` down.
pub proof fn lemma_first_nl_is(s: Seq<char>, k: int)
    requires
        0 <= k <= s.len(),
        forall|i: int| 0 <= i < k ==> s[i] != '\n',
        k < s.len() ==> s[k] == '\n',
    ensures
        first_nl(s) == k,
    decreases s.len(),
{
    if s.len() > 0 && s[0] != '\n' {
        lemma_first_nl_is(s.drop_first(), k - 1);
    }
}

/// Number of tab characters at the start of `s`.
pub open spec fn leading_tabs(s: Seq<char>) -> nat
    decreases s.len(),
{
    if s.len() > 0 && s[0] == '\t' {
        1 + leading_tabs(s.drop_first())
    } else {
        0
    }
}

pub proof fn lemma_leading_tabs_is(s: Seq<char>, t: int)
    requires
        0 <= t <= s.len(),
        forall|i: int| 0 <= i < t ==> s[i] == '\t',
        t < s.len() ==> s[t] != '\t',
    ensures
        leading_tabs(s) == t,
    decreases s.len(),
{
    if s.len() > 0 && s[0] == '\t' {
        lemma_leading_tabs_is(s.drop_first(), t - 1);
    }
}

/// The entry one non-blank, already-trimmed line decodes to.
pub open spec fn classify_line(line: Seq<char>) -> EntryModel {
    let t = leading_tabs(line);
    let payload = line.skip(t as int);
    if t == 0 {
        EntryModel::Section(payload)
    } else if t == 1 {
        EntryModel::SubSection(payload)
    } else {
        EntryModel::File(payload)
    }
}

/// What a whole layout text decodes to: split at newlines, trim each
/// line's trailing whitespace, drop blank lines, classify the rest.
pub open spec fn decode_text(s: Seq<char>) -> Seq<EntryModel>
    decreases s.len(),
{
    let k = first_nl(s);
    let line = trim_end(s.take(k as int));
    let first = if line.len() == 0 {
        Seq::<EntryModel>::empty()
    } else {
        seq![classify_line(line)]
    };
    if k >= s.len() {
        first
    } else {
        first + decode_text(s.skip(k + 1 as int))
    }
}

/// The line an entry encodes to, before trailing-whitespace trimming:
/// its leading tabs followed by its label or path.
pub open spec fn entry_raw(e: EntryModel) -> Seq<char> {
    match e {
        EntryModel::Section(l) => l,
        EntryModel::SubSection(l) => seq!['\t'] + l,
        EntryModel::File(p) => seq!['\t', '\t'] + p,
    }
}

/// What an outline encodes to: one trimmed line per entry, each closed
/// by a newline.
pub open spec fn encode_text(o: Seq<EntryModel>) -> Seq<char>
    decreases o.len(),
{
    if o.len() == 0 {
        Seq::<char>::empty()
    } else {
        trim_end(entry_raw(o[0])) + seq!['\n'] + encode_text(o.drop_first())
    }
}

/// Trimming a concatenation: if the right part does not trim away
/// entirely, the left part is untouched; if it does, only the left part
/// remains to be trimmed.
pub proof fn lemma_trimmed_end_len_concat(a: Seq<char>, b: Seq<char>)
    ensures
        trimmed_end_len(a + b) == if trimmed_end_len(b) == 0 {
            trimmed_end_len(a)
        } else {
            a.len() + trimmed_end_len(b)
        },
    decreases b.len(),
{
    if b.len() == 0 {
        assert(a + b =~= a);
    } else if is_ws(b[b.len() - 1]) {
        assert((a + b).drop_last() =~= a + b.drop_last());
        lemma_trimmed_end_len_concat(a, b.drop_last());
    } else {
        assert((a + b)[a.len() + b.len() - 1] == b[b.len() - 1]);
        assert(trimmed_end_len(a + b) == (a + b).len());
    }
}

fn is_ws_char(c: char) -> (r: bool)
    ensures
        r == is_ws(c),
{
    c == ' ' || c == '\t' || c == '\r' || c == '\n'
}

/// Decode an indentation-coded layout text into an outline.
pub fn decode_layout(s: &str) -> (r: Vec<OutlineEntry>)
    ensures
        outline_model(r@) == decode_text(s@),
{
    let n = s.unicode_len();
    let mut res: Vec<OutlineEntry> = Vec::new();
    let mut i: usize = 0;
    let mut done = false;
    proof {
        assert(s@.skip(0) =~= s@);
        assert(outline_model(res@) + decode_text(s@) =~= decode_text(s@));
    }
    while !done
        invariant
            n == s@.len(),
            i <= n,
            done ==> i == n && decode_text(s@) == outline_model(res@),
            !done ==> decode_text(s@) == outline_model(res@) + decode_text(s@.skip(i as int)),
        decreases n - i + (if done {
            0int
        } else {
            1int
        }),
    {
        let ghost rem = s@.skip(i as int);
        let ghost res0 = res@;
        // find the end of the current line
        let mut j: usize = i;
        while j < n && s.get_char(j) != '\n'
            invariant
                n == s@.len(),
                i <= j <= n,
                forall|m: int| i <= m < j ==> s@[m] != '\n',
            decreases n - j,
        {
            j = j + 1;
        }
        proof {
            assert forall|m: int| 0 <= m < j - i implies rem[m] != '\n' by {
                assert(rem[m] == s@[i + m]);
            }
            if j < n {
                assert(rem[j - i] == s@[j as int]);
            }
            lemma_first_nl_is(rem, j - i);
        }
        // trim trailing whitespace off the line
        let mut m: usize = j;
        while m > i && is_ws_char(s.get_char(m - 1))
            invariant
                n == s@.len(),
                i <= m <= j <= n,
                forall|q: int| m <= q < j ==> is_ws(s@[q]),
            decreases m,
        {
            m = m - 1;
        }
        let ghost line = rem.take(j - i);
        proof {
            assert forall|q: int| m - i <= q < line.len() implies is_ws(line[q]) by {
                assert(line[q] == s@[i + q]);
            }
            if m > i {
                assert(line[m - i - 1] == s@[m - 1]);
            }
            crate::textutil::lemma_trimmed_end_len_is(line, m - i);
        }
        let ghost tline = trim_end(line);
        proof {
            assert(tline =~= s@.subrange(i as int, m as int));
        }
        if m > i {
            // count leading tabs
            let mut t: usize = i;
            while t < m && s.get_char(t) == '\t'
                invariant
                    n == s@.len(),
                    i <= t <= m <= n,
                    forall|q: int| i <= q < t ==> s@[q] == '\t',
                decreases m - t,
            {
                t = t + 1;
            }
            proof {
                assert forall|q: int| 0 <= q < t - i implies tline[q] == '\t' by {
                    assert(tline[q] == s@[i + q]);
                }
                if t < m {
                    assert(tline[t - i] == s@[t as int]);
                }
                lemma_leading_tabs_is(tline, t - i);
            }
            let payload = s.substring_char(t, m);
            let payload = String::from_str(payload);
            proof {
                assert(payload@ =~= tline.skip(t - i));
            }
            let tabs = t - i;
            if tabs == 0 {
                res.push(OutlineEntry::Section(payload));
            } else if tabs == 1 {
                res.push(OutlineEntry::SubSection(payload));
            } else {
                res.push(OutlineEntry::File(payload));
            }
        }
        proof {
            let k = j - i;
            assert(rem.take(k) =~= line);
            let first: Seq<EntryModel> = if tline.len() == 0 {
                Seq::<EntryModel>::empty()
            } else {
                seq![classify_line(tline)]
            };
            if m > i {
                assert(tline.len() == m - i);
                assert(res@ == res0.push(res@[res@.len() - 1]));
                assert(res@[res@.len() - 1]@ == classify_line(tline));
                assert(outline_model(res@) =~= outline_model(res0) + first);
            } else {
                assert(tline.len() == 0);
                assert(outline_model(res@) =~= outline_model(res0) + first);
            }
            if j < n {
                assert(first_nl(rem) < rem.len());
                assert(rem.skip(k + 1) =~= s@.skip(j + 1));
                assert(decode_text(rem) == first + decode_text(s@.skip(j + 1)));
                assert(decode_text(s@) =~= outline_model(res@) + decode_text(s@.skip(j + 1)));
            } else {
                assert(first_nl(rem) >= rem.len());
                assert(decode_text(rem) == first);
                assert(decode_text(s@) =~= outline_model(res@));
            }
        }
        if j < n {
            i = j + 1;
        } else {
            i = n;
            done = true;
        }
    }
    res
}

/// Encode an outline as indentation-coded layout text.
pub fn encode_layout(entries: &Vec<OutlineEntry>) -> (r: String)
    ensures
        r@ == encode_text(outline_model(entries@)),
{
    let mut out = String::new();
    let mut i: usize = 0;
    proof {
        assert(outline_model(entries@).skip(0) =~= outline_model(entries@));
    }
    while i < entries.len()
        invariant
            i <= entries.len(),
            encode_text(outline_model(entries@)) == out@ + encode_text(
                outline_model(entries@).skip(i as int),
            ),
        decreases entries.len() - i,
    {
        let ghost omodel = outline_model(entries@);
        let ghost out0 = out@;
        let label: &String = match &entries[i] {
            OutlineEntry::Section(l) => l,
            OutlineEntry::SubSection(l) => l,
            OutlineEntry::File(p) => p,
        };
        let llen = label.as_str().unicode_len();
        // trimmed length of the label
        let mut m: usize = llen;
        while m > 0 && is_ws_char(label.as_str().get_char(m - 1))
            invariant
                llen == label@.len(),
                m <= llen,
                forall|q: int| m <= q < llen ==> is_ws(label@[q]),
            decreases m,
        {
            m = m - 1;
        }
        proof {
            crate::textutil::lemma_trimmed_end_len_is(label@, m as int);
        }
        let ghost raw = entry_raw(omodel[i as int]);
        if m > 0 {
            match &entries[i] {
                OutlineEntry::Section(_) => {},
                OutlineEntry::SubSection(_) => {
                    crate::textutil::push_char(&mut out, '\t');
                },
                OutlineEntry::File(_) => {
                    crate::textutil::push_char(&mut out, '\t');
                    crate::textutil::push_char(&mut out, '\t');
                },
            }
            let head = label.as_str().substring_char(0, m);
            crate::textutil::push_str(&mut out, head);
        }
        crate::textutil::push_char(&mut out, '\n');
        proof {
            let e = omodel[i as int];
            let tabs = match e {
                EntryModel::Section(_) => Seq::<char>::empty(),
                EntryModel::SubSection(_) => seq!['\t'],
                EntryModel::File(_) => seq!['\t', '\t'],
            };
            assert(label@ == entry_label(e));
            assert(raw =~= tabs + label@);
            assert(forall|q: int| 0 <= q < tabs.len() ==> is_ws(#[trigger] tabs[q]));
            lemma_trimmed_end_len_concat(tabs, label@);
            if m == 0 {
                crate::textutil::lemma_trimmed_end_len_is(tabs, 0);
                assert(trim_end(raw) =~= Seq::<char>::empty());
                assert(out@ =~= out0 + trim_end(raw) + seq!['\n']);
            } else {
                assert(trimmed_end_len(raw) == tabs.len() + m);
                crate::textutil::lemma_trimmed_end_len_le(label@);
                assert(trim_end(raw) =~= tabs + label@.take(m as int));
                assert(out@ =~= out0 + trim_end(raw) + seq!['\n']);
            }
            assert(omodel.skip(i as int)[0] == omodel[i as int]);
            assert(omodel.skip(i as int).drop_first() =~= omodel.skip(i + 1));
            assert(encode_text(omodel.skip(i as int)) == trim_end(raw) + seq!['\n'] + encode_text(
                omodel.skip(i + 1),
            ));
            assert(encode_text(omodel) =~= out@ + encode_text(omodel.skip(i + 1)));
        }
        i = i + 1;
    }
    proof {
        assert(outline_model(entries@).skip(entries@.len() as int) =~= Seq::<EntryModel>::empty());
        assert(out@ =~= encode_text(outline_model(entries@)));
    }
    out
}

/// The label or path an entry carries.
pub open spec fn entry_label(e: EntryModel) -> Seq<char> {
    match e {
        EntryModel::Section(l) => l,
        EntryModel::SubSection(l) => l,
        EntryModel::File(p) => p,
    }
}

/// A label the text encoding keeps intact: non-empty, no newline, not
/// starting with a tab, not ending in whitespace.
pub open spec fn codec_safe_label(l: Seq<char>) -> bool {
    &&& l.len() > 0
    &&& l[0] != '\t'
    &&& !is_ws(l[l.len() - 1])
    &&& forall|i: int| 0 <= i < l.len() ==> l[i] != '\n'
}

/// Decoding inverts encoding: an outline whose labels are codec-safe is
/// reconstructed entry for entry, kind and text alike.
pub proof fn lemma_decode_encode_roundtrip(o: Seq<EntryModel>)
    requires
        forall|i: int| 0 <= i < o.len() ==> codec_safe_label(entry_label(#[trigger] o[i])),
    ensures
        decode_text(encode_text(o)) == o,
    decreases o.len(),
{
    if o.len() == 0 {
        assert(first_nl(Seq::<char>::empty()) == 0);
        assert(trim_end(Seq::<char>::empty()) =~= Seq::<char>::empty());
        assert(decode_text(encode_text(o)) =~= o);
    } else {
        let e = o[0];
        let l = entry_label(e);
        let raw = entry_raw(e);
        let tabs = match e {
            EntryModel::Section(_) => Seq::<char>::empty(),
            EntryModel::SubSection(_) => seq!['\t'],
            EntryModel::File(_) => seq!['\t', '\t'],
        };
        assert(raw =~= tabs + l);
        // raw does not get trimmed: its last char is the label's last char
        assert(raw[raw.len() - 1] == l[l.len() - 1]);
        crate::textutil::lemma_trim_end_noop(raw);
        let rest = encode_text(o.drop_first());
        let s = encode_text(o);
        assert(s =~= raw + seq!['\n'] + rest);
        // the first newline sits right after raw
        assert forall|i: int| 0 <= i < raw.len() implies s[i] != '\n' by {
            if i < tabs.len() {
                assert(raw[i] == '\t');
            } else {
                assert(raw[i] == l[i - tabs.len()]);
            }
        }
        assert(s[raw.len() as int] == '\n');
        lemma_first_nl_is(s, raw.len() as int);
        assert(s.take(raw.len() as int) =~= raw);
        // classification reads the tab count back off the line
        assert forall|i: int| 0 <= i < tabs.len() implies raw[i] == '\t' by {}
        assert(raw[tabs.len() as int] == l[0]);
        lemma_leading_tabs_is(raw, tabs.len() as int);
        assert(raw.skip(tabs.len() as int) =~= l);
        assert(classify_line(raw) == e);
        // and the tail decodes by induction
        assert(s.skip(raw.len() + 1 as int) =~= rest);
        assert(forall|i: int|
            0 <= i < o.drop_first().len() ==> codec_safe_label(
                entry_label(#[trigger] o.drop_first()[i]),
            ));
        lemma_decode_encode_roundtrip(o.drop_first());
        assert(decode_text(s) =~= seq![classify_line(raw)] + decode_text(s.skip(raw.len() + 1 as int)));
        assert(decode_text(encode_text(o)) =~= o);
    }
}

} // verus!
