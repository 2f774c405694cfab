//! The document compiler: turns a decoded outline, a configuration, a
//! resolved highlighter cache and the listed files' contents into the
//! final markup document. The phases are fixed: preamble, front matter,
//! body (headings escaped, code blocks keyed by the cached highlighter),
//! closing. Reading files and running the external resolver are the
//! caller's concern; the text produced here is pinned down exactly.

use crate::config::Config;
use crate::config::frame_text;
use crate::config::frame_name;
use crate::config::paper_text;
use crate::config::paper_name;
use crate::escape::escape;
use crate::escape::escape_text;
use crate::extensions::ext_key;
use crate::extensions::get_extension;
use crate::extensions::lookup;
use crate::extensions::lookup_spec;
use crate::extensions::pairs_model;
use crate::outline::EntryModel;
use crate::outline::OutlineEntry;
use crate::outline::outline_model;
use crate::textutil::bool_text;
use crate::textutil::dec_of;
use crate::textutil::push_bool;
use crate::textutil::push_char;
use crate::textutil::push_dec_u8;
use crate::textutil::push_str;
use vstd::prelude::*;
use vstd::string::StrSliceExecFns;
use vstd::string::StringExecFns;

verus! {

/// A run of spaces of the given width.
pub open spec fn spaces(w: nat) -> Seq<char> {
    Seq::new(w, |i: int| ' ')
}

/// A text with every tab character expanded to a fixed-width run of
/// spaces.
pub open spec fn expand_tabs_text(s: Seq<char>, w: nat) -> Seq<char>
    decreases s.len(),
{
    if s.len() == 0 {
        Seq::<char>::empty()
    } else if s[0] == '\t' {
        spaces(w) + expand_tabs_text(s.drop_first(), w)
    } else {
        seq![s[0]] + expand_tabs_text(s.drop_first(), w)
    }
}

fn push_spaces(out: &mut String, w: u8)
    ensures
        final(out)@ == old(out)@ + spaces(w as nat),
{
    let mut k: u8 = 0;
    proof {
        assert(out@ =~= old(out)@ + spaces(0));
    }
    while k < w
        invariant
            k <= w,
            out@ == old(out)@ + spaces(k as nat),
        decreases w - k,
    {
        push_char(out, ' ');
        proof {
            assert(spaces((k + 1) as nat) =~= spaces(k as nat).push(' '));
            assert(out@ =~= old(out)@ + spaces((k + 1) as nat));
        }
        k = k + 1;
    }
}

/// Expand every tab in a text to `w` spaces.
pub fn expand_tabs(s: &str, w: u8) -> (r: String)
    ensures
        r@ == expand_tabs_text(s@, w as nat),
{
    let n = s.unicode_len();
    let mut out = String::new();
    let mut i: usize = 0;
    proof {
        assert(s@.skip(0) =~= s@);
        assert(out@ + expand_tabs_text(s@, w as nat) =~= expand_tabs_text(s@, w as nat));
    }
    while i < n
        invariant
            n == s@.len(),
            i <= n,
            expand_tabs_text(s@, w as nat) == out@ + expand_tabs_text(s@.skip(i as int), w as nat),
        decreases n - i,
    {
        let c = s.get_char(i);
        proof {
            assert(s@.skip(i as int)[0] == s@[i as int]);
            assert(s@.skip(i as int).drop_first() =~= s@.skip(i + 1));
        }
        if c == '\t' {
            push_spaces(&mut out, w);
        } else {
            push_char(&mut out, c);
        }
        i = i + 1;
        proof {
            assert(expand_tabs_text(s@, w as nat) =~= out@ + expand_tabs_text(
                s@.skip(i as int),
                w as nat,
            ));
        }
    }
    proof {
        assert(s@.skip(n as int) =~= Seq::<char>::empty());
        assert(out@ =~= expand_tabs_text(s@, w as nat));
    }
    out
}

/// How many file entries an outline holds.
pub open spec fn count_files(es: Seq<EntryModel>) -> nat
    decreases es.len(),
{
    if es.len() == 0 {
        0
    } else if es[0] is File {
        1 + count_files(es.drop_first())
    } else {
        count_files(es.drop_first())
    }
}

/// Count the file entries of an outline; the compiler expects one file
/// content per file entry, in outline order.
pub fn count_file_entries(entries: &Vec<OutlineEntry>) -> (n: usize)
    ensures
        n == count_files(outline_model(entries@)),
{
    let ghost es = outline_model(entries@);
    let mut n: usize = 0;
    let mut i: usize = 0;
    proof {
        assert(es.skip(0) =~= es);
    }
    while i < entries.len()
        invariant
            i <= entries@.len(),
            es == outline_model(entries@),
            n <= i,
            count_files(es) == n + count_files(es.skip(i as int)),
        decreases entries@.len() - i,
    {
        proof {
            assert(es.skip(i as int)[0] == es[i as int]);
            assert(es.skip(i as int).drop_first() =~= es.skip(i + 1));
        }
        match &entries[i] {
            OutlineEntry::File(_) => {
                n = n + 1;
            },
            _ => {},
        }
        i = i + 1;
    }
    proof {
        assert(es.skip(entries@.len() as int) =~= Seq::<EntryModel>::empty());
    }
    n
}

/// The models of a list of file contents.
pub open spec fn contents_model(v: Seq<String>) -> Seq<Seq<char>> {
    v.map_values(|s: String| s@)
}

/// The highlighter identifier a file compiles under: the cached one for
/// its extension, or "text" when the cache holds none.
pub open spec fn highlighter_of(cache: Seq<(Seq<char>, Seq<char>)>, p: Seq<char>) -> Seq<char> {
    match lookup_spec(cache, ext_key(p)) {
        Option::Some(id) => id,
        Option::None => "text"@,
    }
}

fn highlighter_for(cache: &Vec<(String, String)>, path: &String) -> (r: String)
    ensures
        r@ == highlighter_of(pairs_model(cache@), path@),
{
    let e = get_extension(path.as_str());
    match lookup(cache, &e) {
        Some(id) => id,
        None => String::from_str("text"),
    }
}

proof fn lemma_append_step(pre: Seq<char>, acc: Seq<char>, t: Seq<char>, cur: Seq<char>)
    requires
        cur == (pre + acc) + t,
    ensures
        cur == pre + (acc + t),
{
    assert((pre + acc) + t =~= pre + (acc + t));
}

/// The opening of a highlighter-style declaration, through the
/// whitespace-rendering option.
pub open spec fn minted_line_head(id: Seq<char>, c: Config) -> Seq<char> {
    "\\newminted{"@ + id + "}{tabsize="@ + dec_of(c.tabsize as nat) + ",linenos="@ + bool_text(c.linenos) + ",mathescape="@ + bool_text(c.mathescape) + ",autogobble="@ + bool_text(c.autogobble) + ",showspaces="@ + bool_text(c.showspaces)
}

/// The rest of a highlighter-style declaration.
pub open spec fn minted_line_tail(c: Config) -> Seq<char> {
    ",showtabs="@ + bool_text(c.showtabs) + ",breaklines="@ + bool_text(c.breaklines) + ",breakanywhere="@ + bool_text(c.breakanywhere) + ",breakautoindent="@ + bool_text(c.breakautoindent) + ",frame="@ + frame_text(c.frame) + ",framerule="@ + c.framerule@ + ",style="@ + c.style@ + ",numbersep="@ + c.numbersep@ + ",framesep="@ + c.framesep@ + "}\n"@
}

/// One highlighter-style declaration, parameterized by the highlighter
/// options of the configuration.
pub open spec fn minted_line(id: Seq<char>, c: Config) -> Seq<char> {
    minted_line_head(id, c) + minted_line_tail(c)
}

#[verifier::rlimit(100)]
fn emit_minted_head(out: &mut String, id: &String, c: &Config)
    ensures
        final(out)@ == old(out)@ + minted_line_head(id@, *c),
{
    push_str(out, "\\newminted{");
    proof {
        assert(out@ =~= old(out)@ + ("\\newminted{"@));
    }
    let ghost mut acc: Seq<char> = "\\newminted{"@;
    push_str(out, id.as_str());
    proof {
        assert(out@ =~= old(out)@ + (acc + (id@)));
        acc = acc + (id@);
    }
    push_str(out, "}{tabsize=");
    proof {
        assert(out@ =~= old(out)@ + (acc + ("}{tabsize="@)));
        acc = acc + ("}{tabsize="@);
    }
    push_dec_u8(out, c.tabsize);
    proof {
        assert(out@ =~= old(out)@ + (acc + (dec_of(c.tabsize as nat))));
        acc = acc + (dec_of(c.tabsize as nat));
    }
    push_str(out, ",linenos=");
    proof {
        assert(out@ =~= old(out)@ + (acc + (",linenos="@)));
        acc = acc + (",linenos="@);
    }
    push_bool(out, c.linenos);
    proof {
        assert(out@ =~= old(out)@ + (acc + (bool_text(c.linenos))));
        acc = acc + (bool_text(c.linenos));
    }
    push_str(out, ",mathescape=");
    proof {
        assert(out@ =~= old(out)@ + (acc + (",mathescape="@)));
        acc = acc + (",mathescape="@);
    }
    push_bool(out, c.mathescape);
    proof {
        assert(out@ =~= old(out)@ + (acc + (bool_text(c.mathescape))));
        acc = acc + (bool_text(c.mathescape));
    }
    push_str(out, ",autogobble=");
    proof {
        assert(out@ =~= old(out)@ + (acc + (",autogobble="@)));
        acc = acc + (",autogobble="@);
    }
    push_bool(out, c.autogobble);
    proof {
        assert(out@ =~= old(out)@ + (acc + (bool_text(c.autogobble))));
        acc = acc + (bool_text(c.autogobble));
    }
    push_str(out, ",showspaces=");
    proof {
        assert(out@ =~= old(out)@ + (acc + (",showspaces="@)));
        acc = acc + (",showspaces="@);
    }
    push_bool(out, c.showspaces);
    proof {
        assert(out@ =~= old(out)@ + (acc + (bool_text(c.showspaces))));
        acc = acc + (bool_text(c.showspaces));
    }
    proof {
        assert(out@ == old(out)@ + minted_line_head(id@, *c));
    }
}

fn emit_minted_tail(out: &mut String, c: &Config)
    ensures
        final(out)@ == old(out)@ + minted_line_tail(*c),
{
    push_str(out, ",showtabs=");
    let ghost mut acc: Seq<char> = ",showtabs="@;
    push_bool(out, c.showtabs);
    proof {
        lemma_append_step(old(out)@, acc, (bool_text(c.showtabs)), out@);
        acc = acc + (bool_text(c.showtabs));
    }
    push_str(out, ",breaklines=");
    proof {
        lemma_append_step(old(out)@, acc, (",breaklines="@), out@);
        acc = acc + (",breaklines="@);
    }
    push_bool(out, c.breaklines);
    proof {
        lemma_append_step(old(out)@, acc, (bool_text(c.breaklines)), out@);
        acc = acc + (bool_text(c.breaklines));
    }
    push_str(out, ",breakanywhere=");
    proof {
        lemma_append_step(old(out)@, acc, (",breakanywhere="@), out@);
        acc = acc + (",breakanywhere="@);
    }
    push_bool(out, c.breakanywhere);
    proof {
        lemma_append_step(old(out)@, acc, (bool_text(c.breakanywhere)), out@);
        acc = acc + (bool_text(c.breakanywhere));
    }
    push_str(out, ",breakautoindent=");
    proof {
        lemma_append_step(old(out)@, acc, (",breakautoindent="@), out@);
        acc = acc + (",breakautoindent="@);
    }
    push_bool(out, c.breakautoindent);
    proof {
        lemma_append_step(old(out)@, acc, (bool_text(c.breakautoindent)), out@);
        acc = acc + (bool_text(c.breakautoindent));
    }
    push_str(out, ",frame=");
    proof {
        lemma_append_step(old(out)@, acc, (",frame="@), out@);
        acc = acc + (",frame="@);
    }
    push_str(out, frame_name(&c.frame));
    proof {
        lemma_append_step(old(out)@, acc, (frame_text(c.frame)), out@);
        acc = acc + (frame_text(c.frame));
    }
    push_str(out, ",framerule=");
    proof {
        lemma_append_step(old(out)@, acc, (",framerule="@), out@);
        acc = acc + (",framerule="@);
    }
    push_str(out, c.framerule.as_str());
    proof {
        lemma_append_step(old(out)@, acc, (c.framerule@), out@);
        acc = acc + (c.framerule@);
    }
    push_str(out, ",style=");
    proof {
        lemma_append_step(old(out)@, acc, (",style="@), out@);
        acc = acc + (",style="@);
    }
    push_str(out, c.style.as_str());
    proof {
        lemma_append_step(old(out)@, acc, (c.style@), out@);
        acc = acc + (c.style@);
    }
    push_str(out, ",numbersep=");
    proof {
        lemma_append_step(old(out)@, acc, (",numbersep="@), out@);
        acc = acc + (",numbersep="@);
    }
    push_str(out, c.numbersep.as_str());
    proof {
        lemma_append_step(old(out)@, acc, (c.numbersep@), out@);
        acc = acc + (c.numbersep@);
    }
    push_str(out, ",framesep=");
    proof {
        lemma_append_step(old(out)@, acc, (",framesep="@), out@);
        acc = acc + (",framesep="@);
    }
    push_str(out, c.framesep.as_str());
    proof {
        lemma_append_step(old(out)@, acc, (c.framesep@), out@);
        acc = acc + (c.framesep@);
    }
    push_str(out, "}\n");
    proof {
        lemma_append_step(old(out)@, acc, ("}\n"@), out@);
        acc = acc + ("}\n"@);
    }
    proof {
        assert(out@ == old(out)@ + minted_line_tail(*c));
    }
}

fn emit_minted_line(out: &mut String, id: &String, c: &Config)
    ensures
        final(out)@ == old(out)@ + minted_line(id@, *c),
{
    emit_minted_head(out, id, c);
    emit_minted_tail(out, c);
    proof {
        assert(out@ =~= old(out)@ + minted_line(id@, *c));
    }
}

/// One declaration per cached extension, in cache order.
pub open spec fn minted_decls(cache: Seq<(Seq<char>, Seq<char>)>, c: Config) -> Seq<char>
    decreases cache.len(),
{
    if cache.len() == 0 {
        Seq::<char>::empty()
    } else {
        minted_line(cache[0].1, c) + minted_decls(cache.drop_first(), c)
    }
}

fn emit_minted_decls(out: &mut String, cache: &Vec<(String, String)>, c: &Config)
    ensures
        final(out)@ == old(out)@ + minted_decls(pairs_model(cache@), *c),
{
    let ghost cm = pairs_model(cache@);
    let mut a: usize = 0;
    proof {
        assert(cm.skip(0) =~= cm);
        assert(out@ + minted_decls(cm, *c) =~= old(out)@ + minted_decls(cm, *c));
    }
    while a < cache.len()
        invariant
            a <= cache@.len(),
            cm == pairs_model(cache@),
            old(out)@ + minted_decls(cm, *c) == out@ + minted_decls(cm.skip(a as int), *c),
        decreases cache@.len() - a,
    {
        proof {
            assert(cm.skip(a as int)[0] == cm[a as int]);
            assert(cm.skip(a as int).drop_first() =~= cm.skip(a + 1));
        }
        emit_minted_line(out, &cache[a].1, c);
        a = a + 1;
        proof {
            assert(old(out)@ + minted_decls(cm, *c) =~= out@ + minted_decls(cm.skip(a as int), *c));
        }
    }
    proof {
        assert(cm.skip(cache@.len() as int) =~= Seq::<(Seq<char>, Seq<char>)>::empty());
        assert(out@ =~= old(out)@ + minted_decls(cm, *c));
    }
}

/// The document-class and package directives derived from the
/// configuration, one to one.
pub open spec fn preamble_head_text(c: Config) -> Seq<char> {
    "\\documentclass["@ + c.fontsize@ + ",oneside]{amsart}\n"@ + "\\usepackage[paper="@ + paper_text(c.layout) + ",lmargin="@ + c.lmargin@ + ",rmargin="@ + c.rmargin@ + ",tmargin="@ + c.tmargin@ + ",bmargin="@ + c.bmargin@ + ",foot=0pt,landscape="@ + bool_text(c.landscape) + "]{geometry}\n"@ + "\\usepackage{fancyhdr}\n"@ + "\\usepackage[utf8]{inputenc}\n"@ + (if c.ncols > 1 || c.ncolstoc > 1 { "\\usepackage{multicol}\n"@ } else { Seq::<char>::empty() }) + "\\usepackage{minted}\n"@ + "\\usepackage{datetime}\n"@ + "\\usepackage[scaled]{berasans}\n"@ + "\\usepackage[scaled]{beramono}\n"@ + "\\renewcommand*\\familydefault{\\sfdefault}\n"@ + "\\usepackage[T1]{fontenc}\n"@ + "\\pagestyle{fancy}\n"@
}

#[verifier::rlimit(100)]
fn emit_preamble_head(out: &mut String, c: &Config)
    ensures
        final(out)@ == old(out)@ + preamble_head_text(*c),
{
    push_str(out, "\\documentclass[");
    proof {
        assert(out@ =~= old(out)@ + ("\\documentclass["@));
    }
    let ghost mut acc: Seq<char> = "\\documentclass["@;
    push_str(out, c.fontsize.as_str());
    proof {
        assert(out@ =~= old(out)@ + (acc + (c.fontsize@)));
        acc = acc + (c.fontsize@);
    }
    push_str(out, ",oneside]{amsart}\n");
    proof {
        assert(out@ =~= old(out)@ + (acc + (",oneside]{amsart}\n"@)));
        acc = acc + (",oneside]{amsart}\n"@);
    }
    push_str(out, "\\usepackage[paper=");
    proof {
        assert(out@ =~= old(out)@ + (acc + ("\\usepackage[paper="@)));
        acc = acc + ("\\usepackage[paper="@);
    }
    push_str(out, paper_name(&c.layout));
    proof {
        assert(out@ =~= old(out)@ + (acc + (paper_text(c.layout))));
        acc = acc + (paper_text(c.layout));
    }
    push_str(out, ",lmargin=");
    proof {
        assert(out@ =~= old(out)@ + (acc + (",lmargin="@)));
        acc = acc + (",lmargin="@);
    }
    push_str(out, c.lmargin.as_str());
    proof {
        assert(out@ =~= old(out)@ + (acc + (c.lmargin@)));
        acc = acc + (c.lmargin@);
    }
    push_str(out, ",rmargin=");
    proof {
        assert(out@ =~= old(out)@ + (acc + (",rmargin="@)));
        acc = acc + (",rmargin="@);
    }
    push_str(out, c.rmargin.as_str());
    proof {
        assert(out@ =~= old(out)@ + (acc + (c.rmargin@)));
        acc = acc + (c.rmargin@);
    }
    push_str(out, ",tmargin=");
    proof {
        assert(out@ =~= old(out)@ + (acc + (",tmargin="@)));
        acc = acc + (",tmargin="@);
    }
    push_str(out, c.tmargin.as_str());
    proof {
        assert(out@ =~= old(out)@ + (acc + (c.tmargin@)));
        acc = acc + (c.tmargin@);
    }
    push_str(out, ",bmargin=");
    proof {
        assert(out@ =~= old(out)@ + (acc + (",bmargin="@)));
        acc = acc + (",bmargin="@);
    }
    push_str(out, c.bmargin.as_str());
    proof {
        assert(out@ =~= old(out)@ + (acc + (c.bmargin@)));
        acc = acc + (c.bmargin@);
    }
    push_str(out, ",foot=0pt,landscape=");
    proof {
        assert(out@ =~= old(out)@ + (acc + (",foot=0pt,landscape="@)));
        acc = acc + (",foot=0pt,landscape="@);
    }
    push_bool(out, c.landscape);
    proof {
        assert(out@ =~= old(out)@ + (acc + (bool_text(c.landscape))));
        acc = acc + (bool_text(c.landscape));
    }
    push_str(out, "]{geometry}\n");
    proof {
        assert(out@ =~= old(out)@ + (acc + ("]{geometry}\n"@)));
        acc = acc + ("]{geometry}\n"@);
    }
    push_str(out, "\\usepackage{fancyhdr}\n");
    proof {
        assert(out@ =~= old(out)@ + (acc + ("\\usepackage{fancyhdr}\n"@)));
        acc = acc + ("\\usepackage{fancyhdr}\n"@);
    }
    push_str(out, "\\usepackage[utf8]{inputenc}\n");
    proof {
        assert(out@ =~= old(out)@ + (acc + ("\\usepackage[utf8]{inputenc}\n"@)));
        acc = acc + ("\\usepackage[utf8]{inputenc}\n"@);
    }
    if c.ncols > 1 || c.ncolstoc > 1 {
        push_str(out, "\\usepackage{multicol}\n");
    }
    proof {
        assert(out@ =~= old(out)@ + (acc + ((if c.ncols > 1 || c.ncolstoc > 1 { "\\usepackage{multicol}\n"@ } else { Seq::<char>::empty() }))));
        acc = acc + ((if c.ncols > 1 || c.ncolstoc > 1 { "\\usepackage{multicol}\n"@ } else { Seq::<char>::empty() }));
    }
    push_str(out, "\\usepackage{minted}\n");
    proof {
        assert(out@ =~= old(out)@ + (acc + ("\\usepackage{minted}\n"@)));
        acc = acc + ("\\usepackage{minted}\n"@);
    }
    push_str(out, "\\usepackage{datetime}\n");
    proof {
        assert(out@ =~= old(out)@ + (acc + ("\\usepackage{datetime}\n"@)));
        acc = acc + ("\\usepackage{datetime}\n"@);
    }
    push_str(out, "\\usepackage[scaled]{berasans}\n");
    proof {
        assert(out@ =~= old(out)@ + (acc + ("\\usepackage[scaled]{berasans}\n"@)));
        acc = acc + ("\\usepackage[scaled]{berasans}\n"@);
    }
    push_str(out, "\\usepackage[scaled]{beramono}\n");
    proof {
        assert(out@ =~= old(out)@ + (acc + ("\\usepackage[scaled]{beramono}\n"@)));
        acc = acc + ("\\usepackage[scaled]{beramono}\n"@);
    }
    push_str(out, "\\renewcommand*\\familydefault{\\sfdefault}\n");
    proof {
        assert(out@ =~= old(out)@ + (acc + ("\\renewcommand*\\familydefault{\\sfdefault}\n"@)));
        acc = acc + ("\\renewcommand*\\familydefault{\\sfdefault}\n"@);
    }
    push_str(out, "\\usepackage[T1]{fontenc}\n");
    proof {
        assert(out@ =~= old(out)@ + (acc + ("\\usepackage[T1]{fontenc}\n"@)));
        acc = acc + ("\\usepackage[T1]{fontenc}\n"@);
    }
    push_str(out, "\\pagestyle{fancy}\n");
    proof {
        assert(out@ =~= old(out)@ + (acc + ("\\pagestyle{fancy}\n"@)));
        acc = acc + ("\\pagestyle{fancy}\n"@);
    }
    proof {
        assert(out@ == old(out)@ + preamble_head_text(*c));
    }
}

/// The page-header, length and front-matter declarations derived from
/// the configuration.
pub open spec fn preamble_meta_text(c: Config) -> Seq<char> {
    "\\lhead{"@ + c.university@ + " - "@ + c.team@ + "}\n"@ + "\\rhead{Page: \\thepage}\n"@ + "\\cfoot{}\n"@ + "\\renewcommand{\\headrulewidth}{"@ + c.headrulewidth@ + "}\n"@ + "\\renewcommand{\\footrulewidth}{"@ + c.footrulewidth@ + "}\n"@ + "\\setlength{\\headheight}{"@ + c.headheight@ + "}\n"@ + "\\setlength{\\headsep}{"@ + c.headsep@ + "}\n"@ + "\\setlength{\\footskip}{"@ + c.footskip@ + "}\n"@ + "\\setlength{\\columnsep}{"@ + c.columnsep@ + "}\n"@ + "\\title{"@ + c.title@ + "}\n"@ + "\\author{"@ + c.author@ + "}\n"@ + "\\date{\\ddmmyyyydate{\\today{}}}\n"@
}

#[verifier::rlimit(100)]
fn emit_preamble_meta(out: &mut String, c: &Config)
    ensures
        final(out)@ == old(out)@ + preamble_meta_text(*c),
{
    push_str(out, "\\lhead{");
    proof {
        assert(out@ =~= old(out)@ + ("\\lhead{"@));
    }
    let ghost mut acc: Seq<char> = "\\lhead{"@;
    push_str(out, c.university.as_str());
    proof {
        assert(out@ =~= old(out)@ + (acc + (c.university@)));
        acc = acc + (c.university@);
    }
    push_str(out, " - ");
    proof {
        assert(out@ =~= old(out)@ + (acc + (" - "@)));
        acc = acc + (" - "@);
    }
    push_str(out, c.team.as_str());
    proof {
        assert(out@ =~= old(out)@ + (acc + (c.team@)));
        acc = acc + (c.team@);
    }
    push_str(out, "}\n");
    proof {
        assert(out@ =~= old(out)@ + (acc + ("}\n"@)));
        acc = acc + ("}\n"@);
    }
    push_str(out, "\\rhead{Page: \\thepage}\n");
    proof {
        assert(out@ =~= old(out)@ + (acc + ("\\rhead{Page: \\thepage}\n"@)));
        acc = acc + ("\\rhead{Page: \\thepage}\n"@);
    }
    push_str(out, "\\cfoot{}\n");
    proof {
        assert(out@ =~= old(out)@ + (acc + ("\\cfoot{}\n"@)));
        acc = acc + ("\\cfoot{}\n"@);
    }
    push_str(out, "\\renewcommand{\\headrulewidth}{");
    proof {
        assert(out@ =~= old(out)@ + (acc + ("\\renewcommand{\\headrulewidth}{"@)));
        acc = acc + ("\\renewcommand{\\headrulewidth}{"@);
    }
    push_str(out, c.headrulewidth.as_str());
    proof {
        assert(out@ =~= old(out)@ + (acc + (c.headrulewidth@)));
        acc = acc + (c.headrulewidth@);
    }
    push_str(out, "}\n");
    proof {
        assert(out@ =~= old(out)@ + (acc + ("}\n"@)));
        acc = acc + ("}\n"@);
    }
    push_str(out, "\\renewcommand{\\footrulewidth}{");
    proof {
        assert(out@ =~= old(out)@ + (acc + ("\\renewcommand{\\footrulewidth}{"@)));
        acc = acc + ("\\renewcommand{\\footrulewidth}{"@);
    }
    push_str(out, c.footrulewidth.as_str());
    proof {
        assert(out@ =~= old(out)@ + (acc + (c.footrulewidth@)));
        acc = acc + (c.footrulewidth@);
    }
    push_str(out, "}\n");
    proof {
        assert(out@ =~= old(out)@ + (acc + ("}\n"@)));
        acc = acc + ("}\n"@);
    }
    push_str(out, "\\setlength{\\headheight}{");
    proof {
        assert(out@ =~= old(out)@ + (acc + ("\\setlength{\\headheight}{"@)));
        acc = acc + ("\\setlength{\\headheight}{"@);
    }
    push_str(out, c.headheight.as_str());
    proof {
        assert(out@ =~= old(out)@ + (acc + (c.headheight@)));
        acc = acc + (c.headheight@);
    }
    push_str(out, "}\n");
    proof {
        assert(out@ =~= old(out)@ + (acc + ("}\n"@)));
        acc = acc + ("}\n"@);
    }
    push_str(out, "\\setlength{\\headsep}{");
    proof {
        assert(out@ =~= old(out)@ + (acc + ("\\setlength{\\headsep}{"@)));
        acc = acc + ("\\setlength{\\headsep}{"@);
    }
    push_str(out, c.headsep.as_str());
    proof {
        assert(out@ =~= old(out)@ + (acc + (c.headsep@)));
        acc = acc + (c.headsep@);
    }
    push_str(out, "}\n");
    proof {
        assert(out@ =~= old(out)@ + (acc + ("}\n"@)));
        acc = acc + ("}\n"@);
    }
    push_str(out, "\\setlength{\\footskip}{");
    proof {
        assert(out@ =~= old(out)@ + (acc + ("\\setlength{\\footskip}{"@)));
        acc = acc + ("\\setlength{\\footskip}{"@);
    }
    push_str(out, c.footskip.as_str());
    proof {
        assert(out@ =~= old(out)@ + (acc + (c.footskip@)));
        acc = acc + (c.footskip@);
    }
    push_str(out, "}\n");
    proof {
        assert(out@ =~= old(out)@ + (acc + ("}\n"@)));
        acc = acc + ("}\n"@);
    }
    push_str(out, "\\setlength{\\columnsep}{");
    proof {
        assert(out@ =~= old(out)@ + (acc + ("\\setlength{\\columnsep}{"@)));
        acc = acc + ("\\setlength{\\columnsep}{"@);
    }
    push_str(out, c.columnsep.as_str());
    proof {
        assert(out@ =~= old(out)@ + (acc + (c.columnsep@)));
        acc = acc + (c.columnsep@);
    }
    push_str(out, "}\n");
    proof {
        assert(out@ =~= old(out)@ + (acc + ("}\n"@)));
        acc = acc + ("}\n"@);
    }
    push_str(out, "\\title{");
    proof {
        assert(out@ =~= old(out)@ + (acc + ("\\title{"@)));
        acc = acc + ("\\title{"@);
    }
    push_str(out, c.title.as_str());
    proof {
        assert(out@ =~= old(out)@ + (acc + (c.title@)));
        acc = acc + (c.title@);
    }
    push_str(out, "}\n");
    proof {
        assert(out@ =~= old(out)@ + (acc + ("}\n"@)));
        acc = acc + ("}\n"@);
    }
    push_str(out, "\\author{");
    proof {
        assert(out@ =~= old(out)@ + (acc + ("\\author{"@)));
        acc = acc + ("\\author{"@);
    }
    push_str(out, c.author.as_str());
    proof {
        assert(out@ =~= old(out)@ + (acc + (c.author@)));
        acc = acc + (c.author@);
    }
    push_str(out, "}\n");
    proof {
        assert(out@ =~= old(out)@ + (acc + ("}\n"@)));
        acc = acc + ("}\n"@);
    }
    push_str(out, "\\date{\\ddmmyyyydate{\\today{}}}\n");
    proof {
        assert(out@ =~= old(out)@ + (acc + ("\\date{\\ddmmyyyydate{\\today{}}}\n"@)));
        acc = acc + ("\\date{\\ddmmyyyydate{\\today{}}}\n"@);
    }
    proof {
        assert(out@ == old(out)@ + preamble_meta_text(*c));
    }
}

/// The front matter: document begin, table of contents in its
/// multi-column block if asked for, the page break after it, and the
/// body's multi-column block where it differs from the one already open.
pub open spec fn front_matter_text(c: Config) -> Seq<char> {
    "\\begin{document}\n"@ + "\\thispagestyle{fancy}\n"@ + (if c.ncolstoc > 1 { "\\begin{multicols*}{"@ + dec_of(c.ncolstoc as nat) + "}\n"@ } else { Seq::<char>::empty() }) + "\\tableofcontents\n"@ + (if c.ncolstoc > 1 && c.ncolstoc != c.ncols { "\\end{multicols*}\n"@ } else { Seq::<char>::empty() }) + (if c.separatetoc { "\\newpage\n"@ } else { Seq::<char>::empty() }) + (if c.ncols > 1 && c.ncolstoc != c.ncols { "\\begin{multicols*}{"@ + dec_of(c.ncols as nat) + "}\n"@ } else { Seq::<char>::empty() })
}

fn emit_front_matter(out: &mut String, c: &Config)
    ensures
        final(out)@ == old(out)@ + front_matter_text(*c),
{
    push_str(out, "\\begin{document}\n");
    proof {
        assert(out@ =~= old(out)@ + ("\\begin{document}\n"@));
    }
    let ghost mut acc: Seq<char> = "\\begin{document}\n"@;
    push_str(out, "\\thispagestyle{fancy}\n");
    proof {
        assert(out@ =~= old(out)@ + (acc + ("\\thispagestyle{fancy}\n"@)));
        acc = acc + ("\\thispagestyle{fancy}\n"@);
    }
    if c.ncolstoc > 1 {
        push_str(out, "\\begin{multicols*}{");
        push_dec_u8(out, c.ncolstoc);
        push_str(out, "}\n");
    }
    proof {
        assert(out@ =~= old(out)@ + (acc + ((if c.ncolstoc > 1 { "\\begin{multicols*}{"@ + dec_of(c.ncolstoc as nat) + "}\n"@ } else { Seq::<char>::empty() }))));
        acc = acc + ((if c.ncolstoc > 1 { "\\begin{multicols*}{"@ + dec_of(c.ncolstoc as nat) + "}\n"@ } else { Seq::<char>::empty() }));
    }
    push_str(out, "\\tableofcontents\n");
    proof {
        assert(out@ =~= old(out)@ + (acc + ("\\tableofcontents\n"@)));
        acc = acc + ("\\tableofcontents\n"@);
    }
    if c.ncolstoc > 1 && c.ncolstoc != c.ncols {
        push_str(out, "\\end{multicols*}\n");
    }
    proof {
        assert(out@ =~= old(out)@ + (acc + ((if c.ncolstoc > 1 && c.ncolstoc != c.ncols { "\\end{multicols*}\n"@ } else { Seq::<char>::empty() }))));
        acc = acc + ((if c.ncolstoc > 1 && c.ncolstoc != c.ncols { "\\end{multicols*}\n"@ } else { Seq::<char>::empty() }));
    }
    if c.separatetoc {
        push_str(out, "\\newpage\n");
    }
    proof {
        assert(out@ =~= old(out)@ + (acc + ((if c.separatetoc { "\\newpage\n"@ } else { Seq::<char>::empty() }))));
        acc = acc + ((if c.separatetoc { "\\newpage\n"@ } else { Seq::<char>::empty() }));
    }
    if c.ncols > 1 && c.ncolstoc != c.ncols {
        push_str(out, "\\begin{multicols*}{");
        push_dec_u8(out, c.ncols);
        push_str(out, "}\n");
    }
    proof {
        assert(out@ =~= old(out)@ + (acc + ((if c.ncols > 1 && c.ncolstoc != c.ncols { "\\begin{multicols*}{"@ + dec_of(c.ncols as nat) + "}\n"@ } else { Seq::<char>::empty() }))));
        acc = acc + ((if c.ncols > 1 && c.ncolstoc != c.ncols { "\\begin{multicols*}{"@ + dec_of(c.ncols as nat) + "}\n"@ } else { Seq::<char>::empty() }));
    }
    proof {
        assert(out@ == old(out)@ + front_matter_text(*c));
    }
}

/// The code block one file compiles to: its content, tabs expanded,
/// wrapped in the highlighted-code environment of its extension's
/// cached highlighter.
pub open spec fn file_block_text(
    p: Seq<char>,
    cache: Seq<(Seq<char>, Seq<char>)>,
    c: Config,
    content: Seq<char>,
) -> Seq<char> {
    "\\begin{"@ + highlighter_of(cache, p) + "code}\n"@ + expand_tabs_text(
        content,
        c.tabsize as nat,
    ) + "\n"@ + "\\end{"@ + highlighter_of(cache, p) + "code}\n"@
}

/// The body: headings escaped, file contents as highlighted code
/// blocks, in outline order.
pub open spec fn body_text(
    es: Seq<EntryModel>,
    cache: Seq<(Seq<char>, Seq<char>)>,
    c: Config,
    contents: Seq<Seq<char>>,
) -> Seq<char>
    decreases es.len(),
{
    if es.len() == 0 {
        Seq::<char>::empty()
    } else {
        match es[0] {
            EntryModel::Section(l) => "\\section{"@ + escape_text(l) + "}\n"@ + body_text(
                es.drop_first(),
                cache,
                c,
                contents,
            ),
            EntryModel::SubSection(l) => "\\subsection{"@ + escape_text(l) + "}\n"@ + body_text(
                es.drop_first(),
                cache,
                c,
                contents,
            ),
            EntryModel::File(p) => file_block_text(p, cache, c, contents[0]) + body_text(
                es.drop_first(),
                cache,
                c,
                contents.drop_first(),
            ),
        }
    }
}

#[verifier::rlimit(100)]
fn emit_body(
    out: &mut String,
    entries: &Vec<OutlineEntry>,
    i: usize,
    cache: &Vec<(String, String)>,
    c: &Config,
    contents: &Vec<String>,
    j: usize,
)
    requires
        i <= entries@.len(),
        j <= contents@.len(),
        contents@.len() - j == count_files(outline_model(entries@).skip(i as int)),
    ensures
        final(out)@ == old(out)@ + body_text(
            outline_model(entries@).skip(i as int),
            pairs_model(cache@),
            *c,
            contents_model(contents@).skip(j as int),
        ),
    decreases entries@.len() - i,
{
    let ghost es = outline_model(entries@).skip(i as int);
    let ghost cm = contents_model(contents@).skip(j as int);
    if i == entries.len() {
        proof {
            assert(es =~= Seq::<EntryModel>::empty());
            assert(out@ =~= old(out)@ + body_text(es, pairs_model(cache@), *c, cm));
        }
        return ;
    }
    proof {
        assert(es[0] == outline_model(entries@)[i as int]);
        assert(es.drop_first() =~= outline_model(entries@).skip(i + 1));
    }
    match &entries[i] {
        OutlineEntry::Section(l) => {
            push_str(out, "\\section{");
            let esc = escape(l.as_str());
            push_str(out, esc.as_str());
            push_str(out, "}\n");
            emit_body(out, entries, i + 1, cache, c, contents, j);
            proof {
                assert(out@ =~= old(out)@ + body_text(es, pairs_model(cache@), *c, cm));
            }
        },
        OutlineEntry::SubSection(l) => {
            push_str(out, "\\subsection{");
            let esc = escape(l.as_str());
            push_str(out, esc.as_str());
            push_str(out, "}\n");
            emit_body(out, entries, i + 1, cache, c, contents, j);
            proof {
                assert(out@ =~= old(out)@ + body_text(es, pairs_model(cache@), *c, cm));
            }
        },
        OutlineEntry::File(p) => {
            let clen = contents.len();
            proof {
                assert(count_files(es) == 1 + count_files(es.drop_first()));
                assert(j < clen);
                assert(cm[0] == contents_model(contents@)[j as int]);
                assert(cm.drop_first() =~= contents_model(contents@).skip(j + 1));
            }
            let id = highlighter_for(cache, p);
            push_str(out, "\\begin{");
            push_str(out, id.as_str());
            push_str(out, "code}\n");
            let expanded = expand_tabs(contents[j].as_str(), c.tabsize);
            push_str(out, expanded.as_str());
            push_str(out, "\n");
            push_str(out, "\\end{");
            push_str(out, id.as_str());
            push_str(out, "code}\n");
            emit_body(out, entries, i + 1, cache, c, contents, j + 1);
            proof {
                assert(out@ =~= old(out)@ + body_text(es, pairs_model(cache@), *c, cm));
            }
        },
    }
}

/// The closing: the body's multi-column block ended if one was open,
/// then the document end.
pub open spec fn closing_text(c: Config) -> Seq<char> {
    (if c.ncols > 1 {
        "\\end{multicols*}\n"@
    } else {
        Seq::<char>::empty()
    }) + "\\end{document}\n"@
}

fn emit_closing(out: &mut String, c: &Config)
    ensures
        final(out)@ == old(out)@ + closing_text(*c),
{
    if c.ncols > 1 {
        push_str(out, "\\end{multicols*}\n");
    }
    push_str(out, "\\end{document}\n");
    proof {
        assert(out@ =~= old(out)@ + closing_text(*c));
    }
}

/// The whole document a compile run emits, phase by phase.
pub open spec fn document_text(
    es: Seq<EntryModel>,
    c: Config,
    cache: Seq<(Seq<char>, Seq<char>)>,
    contents: Seq<Seq<char>>,
) -> Seq<char> {
    preamble_head_text(c) + preamble_meta_text(c) + minted_decls(cache, c) + front_matter_text(c)
        + body_text(es, cache, c, contents) + closing_text(c)
}

/// Compile an outline with a configuration, a resolved highlighter
/// cache and the file contents (one per file entry, in outline order)
/// into the output document.
pub fn compile(
    entries: &Vec<OutlineEntry>,
    c: &Config,
    cache: &Vec<(String, String)>,
    contents: &Vec<String>,
) -> (r: String)
    requires
        contents@.len() == count_files(outline_model(entries@)),
    ensures
        r@ == document_text(
            outline_model(entries@),
            *c,
            pairs_model(cache@),
            contents_model(contents@),
        ),
{
    let mut out = String::new();
    emit_preamble_head(&mut out, c);
    emit_preamble_meta(&mut out, c);
    emit_minted_decls(&mut out, cache, c);
    emit_front_matter(&mut out, c);
    proof {
        assert(outline_model(entries@).skip(0) =~= outline_model(entries@));
        assert(contents_model(contents@).skip(0) =~= contents_model(contents@));
    }
    emit_body(&mut out, entries, 0, cache, c, contents, 0);
    emit_closing(&mut out, c);
    proof {
        assert(out@ =~= document_text(
            outline_model(entries@),
            *c,
            pairs_model(cache@),
            contents_model(contents@),
        ));
    }
    out
}

} // verus!
