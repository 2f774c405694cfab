use notebook_compiler::compiler::{compile, count_file_entries};
use notebook_compiler::config::{Config, FrameType, PaperType};
use notebook_compiler::extensions::{lookup, pending_extensions};
use notebook_compiler::outline::OutlineEntry;

fn sample_config() -> Config {
    Config {
        layout: PaperType::A4Paper,
        landscape: true,
        lmargin: "1cm".to_string(),
        rmargin: "1cm".to_string(),
        tmargin: "2cm".to_string(),
        bmargin: "1cm".to_string(),
        headrulewidth: "0.4pt".to_string(),
        footrulewidth: "0pt".to_string(),
        headheight: "15pt".to_string(),
        headsep: "5pt".to_string(),
        footskip: "10pt".to_string(),
        title: "Reference".to_string(),
        author: "Team".to_string(),
        university: "Uni".to_string(),
        team: "Us".to_string(),
        ncols: 1,
        ncolstoc: 2,
        columnsep: "20pt".to_string(),
        separatetoc: false,
        fontsize: "8pt".to_string(),
        tabsize: 4,
        linenos: true,
        numbersep: "3mm".to_string(),
        mathescape: false,
        autogobble: true,
        showspaces: false,
        showtabs: false,
        breaklines: true,
        breakanywhere: true,
        breakautoindent: false,
        frame: FrameType::Lines,
        framesep: "2mm".to_string(),
        framerule: "0.4pt".to_string(),
        style: "default".to_string(),
    }
}

fn count_occurrences(haystack: &str, needle: &str) -> usize {
    let mut n: usize = 0;
    let mut rest = haystack;
    while let Some(k) = rest.find(needle) {
        n += 1;
        rest = &rest[k + needle.len()..];
    }
    n
}

#[test]
fn toc_columns_without_body_columns_wrap_only_the_toc() {
    let c = sample_config();
    let outline: Vec<OutlineEntry> = vec![];
    let cache: Vec<(String, String)> = vec![];
    let contents: Vec<String> = vec![];
    let doc = compile(&outline, &c, &cache, &contents);
    // one multi-column block, opened right before the table of contents
    // and closed right after it; none around the body
    assert!(doc.contains("\\begin{multicols*}{2}\n\\tableofcontents\n\\end{multicols*}\n"));
    assert_eq!(count_occurrences(&doc, "\\begin{multicols*}"), 1);
    assert_eq!(count_occurrences(&doc, "\\end{multicols*}"), 1);
}

#[test]
fn equal_column_counts_share_one_block() {
    let mut c = sample_config();
    c.ncols = 2;
    c.ncolstoc = 2;
    let outline: Vec<OutlineEntry> = vec![];
    let cache: Vec<(String, String)> = vec![];
    let contents: Vec<String> = vec![];
    let doc = compile(&outline, &c, &cache, &contents);
    // opened once before the table of contents, closed once at the end
    assert_eq!(count_occurrences(&doc, "\\begin{multicols*}{2}"), 1);
    assert_eq!(count_occurrences(&doc, "\\end{multicols*}"), 1);
    let begin = doc.find("\\begin{multicols*}{2}").unwrap();
    let toc = doc.find("\\tableofcontents").unwrap();
    let end = doc.find("\\end{multicols*}").unwrap();
    let done = doc.find("\\end{document}").unwrap();
    assert!(begin < toc && toc < end && end < done);
}

#[test]
fn single_column_document_has_no_multicol_block() {
    let mut c = sample_config();
    c.ncols = 1;
    c.ncolstoc = 1;
    let outline: Vec<OutlineEntry> = vec![];
    let cache: Vec<(String, String)> = vec![];
    let contents: Vec<String> = vec![];
    let doc = compile(&outline, &c, &cache, &contents);
    assert_eq!(count_occurrences(&doc, "multicol"), 0);
}

#[test]
fn separate_toc_inserts_a_page_break() {
    let mut c = sample_config();
    c.separatetoc = true;
    let outline: Vec<OutlineEntry> = vec![];
    let cache: Vec<(String, String)> = vec![];
    let contents: Vec<String> = vec![];
    let doc = compile(&outline, &c, &cache, &contents);
    assert!(doc.contains("\\newpage\n"));
}

#[test]
fn body_emits_headings_and_code_blocks_in_order() {
    let c = sample_config();
    let outline = vec![
        OutlineEntry::Section("Algo".to_string()),
        OutlineEntry::SubSection("Sort".to_string()),
        OutlineEntry::File("proj/algo/sort.cpp".to_string()),
    ];
    let cache = vec![("cpp".to_string(), "cpp".to_string())];
    let contents = vec!["int main() {\n\treturn 0;\n}".to_string()];
    let doc = compile(&outline, &c, &cache, &contents);
    assert!(doc.contains("\\section{Algo}\n"));
    assert!(doc.contains("\\subsection{Sort}\n"));
    assert!(doc.contains("\\begin{cppcode}\nint main() {\n    return 0;\n}\n\\end{cppcode}\n"));
    let sec = doc.find("\\section{Algo}").unwrap();
    let sub = doc.find("\\subsection{Sort}").unwrap();
    let block = doc.find("\\begin{cppcode}").unwrap();
    assert!(sec < sub && sub < block);
}

#[test]
fn headings_are_escaped_but_code_is_not() {
    let c = sample_config();
    let outline = vec![
        OutlineEntry::Section("Bits & Pieces_v2".to_string()),
        OutlineEntry::File("r/x.py".to_string()),
    ];
    let cache = vec![("py".to_string(), "python".to_string())];
    let contents = vec!["a = b & c  # 100%".to_string()];
    let doc = compile(&outline, &c, &cache, &contents);
    assert!(doc.contains("\\section{Bits \\& Pieces\\_v2}\n"));
    assert!(doc.contains("a = b & c  # 100%"));
}

#[test]
fn unresolved_extension_falls_back_to_text() {
    let c = sample_config();
    let outline = vec![OutlineEntry::File("r/readme.txt".to_string())];
    let cache: Vec<(String, String)> = vec![];
    let contents = vec!["hello".to_string()];
    let doc = compile(&outline, &c, &cache, &contents);
    assert!(doc.contains("\\begin{textcode}\nhello\n\\end{textcode}\n"));
}

#[test]
fn preamble_reflects_configuration() {
    let c = sample_config();
    let outline: Vec<OutlineEntry> = vec![];
    let cache = vec![("cpp".to_string(), "cpp".to_string())];
    let contents: Vec<String> = vec![];
    let doc = compile(&outline, &c, &cache, &contents);
    assert!(doc.starts_with("\\documentclass[8pt,oneside]{amsart}\n"));
    assert!(doc.contains(
        "\\usepackage[paper=a4paper,lmargin=1cm,rmargin=1cm,tmargin=2cm,bmargin=1cm,foot=0pt,landscape=true]{geometry}\n"
    ));
    assert!(doc.contains("\\lhead{Uni - Us}\n"));
    assert!(doc.contains("\\title{Reference}\n"));
    assert!(doc.contains(
        "\\newminted{cpp}{tabsize=4,linenos=true,mathescape=false,autogobble=true,showspaces=false,showtabs=false,breaklines=true,breakanywhere=true,breakautoindent=false,frame=lines,framerule=0.4pt,style=default,numbersep=3mm,framesep=2mm}\n"
    ));
    assert!(doc.ends_with("\\end{document}\n"));
}

#[test]
fn pending_extensions_lists_each_extension_once() {
    let outline = vec![
        OutlineEntry::Section("A".to_string()),
        OutlineEntry::File("r/a.cpp".to_string()),
        OutlineEntry::File("r/b.cpp".to_string()),
        OutlineEntry::File("r/c.py".to_string()),
        OutlineEntry::File("r/d.cpp".to_string()),
    ];
    let pending = pending_extensions(&outline);
    assert_eq!(
        pending,
        vec![
            ("cpp".to_string(), "r/a.cpp".to_string()),
            ("py".to_string(), "r/c.py".to_string()),
        ]
    );
}

#[test]
fn pending_extensions_skips_empty_extensions() {
    let outline = vec![OutlineEntry::File("r/weird.".to_string())];
    assert_eq!(pending_extensions(&outline), vec![]);
}

#[test]
fn lookup_finds_cached_identifier() {
    let cache = vec![
        ("cpp".to_string(), "cpp".to_string()),
        ("py".to_string(), "python".to_string()),
    ];
    assert_eq!(lookup(&cache, &"py".to_string()), Some("python".to_string()));
    assert_eq!(lookup(&cache, &"rs".to_string()), None);
}

#[test]
fn count_file_entries_counts_only_files() {
    let outline = vec![
        OutlineEntry::Section("A".to_string()),
        OutlineEntry::File("r/a.cpp".to_string()),
        OutlineEntry::SubSection("B".to_string()),
        OutlineEntry::File("r/b.py".to_string()),
    ];
    assert_eq!(count_file_entries(&outline), 2);
}
