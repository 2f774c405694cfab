//! The document configuration: a fixed schema of scalar fields read once
//! before compilation and immutable thereafter. Field decoding from the
//! configuration file is the caller's concern; this module holds the
//! schema, the names the paper and frame kinds render as, and the
//! rule-compliance check on the paper kind.

use vstd::prelude::*;

verus! {

/// The paper kind of the output document.
#[derive(Clone, Copy, Debug, PartialEq, Eq, Structural)]
pub enum PaperType {
    A0Paper,
    A1Paper,
    A2Paper,
    A3Paper,
    A4Paper,
    A5Paper,
    A6Paper,
    B0Paper,
    B1Paper,
    B2Paper,
    B3Paper,
    B4Paper,
    B5Paper,
    B6Paper,
    C0Paper,
    C1Paper,
    C2Paper,
    C3Paper,
    C4Paper,
    C5Paper,
    C6Paper,
    B0J,
    B1J,
    B2J,
    B3J,
    B4J,
    B5J,
    B6J,
    AnsiAPaper,
    AnsiBPaper,
    AnsiCPaper,
    AnsiDPaper,
    AnsiEPaper,
    LetterPaper,
    ExecutivePaper,
    LegalPaper,
}

/// The name a paper kind renders as in the output markup.
#[verifier::opaque]
pub open spec fn paper_text(p: PaperType) -> Seq<char> {
    match p {
        PaperType::A0Paper => "a0paper"@,
        PaperType::A1Paper => "a1paper"@,
        PaperType::A2Paper => "a2paper"@,
        PaperType::A3Paper => "a3paper"@,
        PaperType::A4Paper => "a4paper"@,
        PaperType::A5Paper => "a5paper"@,
        PaperType::A6Paper => "a6paper"@,
        PaperType::B0Paper => "b0paper"@,
        PaperType::B1Paper => "b1paper"@,
        PaperType::B2Paper => "b2paper"@,
        PaperType::B3Paper => "b3paper"@,
        PaperType::B4Paper => "b4paper"@,
        PaperType::B5Paper => "b5paper"@,
        PaperType::B6Paper => "b6paper"@,
        PaperType::C0Paper => "c0paper"@,
        PaperType::C1Paper => "c1paper"@,
        PaperType::C2Paper => "c2paper"@,
        PaperType::C3Paper => "c3paper"@,
        PaperType::C4Paper => "c4paper"@,
        PaperType::C5Paper => "c5paper"@,
        PaperType::C6Paper => "c6paper"@,
        PaperType::B0J => "b0j"@,
        PaperType::B1J => "b1j"@,
        PaperType::B2J => "b2j"@,
        PaperType::B3J => "b3j"@,
        PaperType::B4J => "b4j"@,
        PaperType::B5J => "b5j"@,
        PaperType::B6J => "b6j"@,
        PaperType::AnsiAPaper => "ansiapaper"@,
        PaperType::AnsiBPaper => "ansibpaper"@,
        PaperType::AnsiCPaper => "ansicpaper"@,
        PaperType::AnsiDPaper => "ansidpaper"@,
        PaperType::AnsiEPaper => "ansiepaper"@,
        PaperType::LetterPaper => "letterpaper"@,
        PaperType::ExecutivePaper => "executivepaper"@,
        PaperType::LegalPaper => "legalpaper"@,
    }
}

/// The name a paper kind renders as.
pub fn paper_name(p: &PaperType) -> (r: &'static str)
    ensures
        r@ == paper_text(*p),
{
    proof {
        reveal(paper_text);
    }
    match p {
        PaperType::A0Paper => "a0paper",
        PaperType::A1Paper => "a1paper",
        PaperType::A2Paper => "a2paper",
        PaperType::A3Paper => "a3paper",
        PaperType::A4Paper => "a4paper",
        PaperType::A5Paper => "a5paper",
        PaperType::A6Paper => "a6paper",
        PaperType::B0Paper => "b0paper",
        PaperType::B1Paper => "b1paper",
        PaperType::B2Paper => "b2paper",
        PaperType::B3Paper => "b3paper",
        PaperType::B4Paper => "b4paper",
        PaperType::B5Paper => "b5paper",
        PaperType::B6Paper => "b6paper",
        PaperType::C0Paper => "c0paper",
        PaperType::C1Paper => "c1paper",
        PaperType::C2Paper => "c2paper",
        PaperType::C3Paper => "c3paper",
        PaperType::C4Paper => "c4paper",
        PaperType::C5Paper => "c5paper",
        PaperType::C6Paper => "c6paper",
        PaperType::B0J => "b0j",
        PaperType::B1J => "b1j",
        PaperType::B2J => "b2j",
        PaperType::B3J => "b3j",
        PaperType::B4J => "b4j",
        PaperType::B5J => "b5j",
        PaperType::B6J => "b6j",
        PaperType::AnsiAPaper => "ansiapaper",
        PaperType::AnsiBPaper => "ansibpaper",
        PaperType::AnsiCPaper => "ansicpaper",
        PaperType::AnsiDPaper => "ansidpaper",
        PaperType::AnsiEPaper => "ansiepaper",
        PaperType::LetterPaper => "letterpaper",
        PaperType::ExecutivePaper => "executivepaper",
        PaperType::LegalPaper => "legalpaper",
    }
}

/// The frame drawn around highlighted code blocks.
#[derive(Clone, Copy, Debug, PartialEq, Eq, Structural)]
pub enum FrameType {
    NoFrame,
    LeftLine,
    TopLine,
    BottomLine,
    Lines,
    Single,
}

/// The name a frame kind renders as in the output markup.
#[verifier::opaque]
pub open spec fn frame_text(f: FrameType) -> Seq<char> {
    match f {
        FrameType::NoFrame => "none"@,
        FrameType::LeftLine => "leftline"@,
        FrameType::TopLine => "topline"@,
        FrameType::BottomLine => "bottomline"@,
        FrameType::Lines => "lines"@,
        FrameType::Single => "single"@,
    }
}

/// The name a frame kind renders as.
pub fn frame_name(f: &FrameType) -> (r: &'static str)
    ensures
        r@ == frame_text(*f),
{
    proof {
        reveal(frame_text);
    }
    match f {
        FrameType::NoFrame => "none",
        FrameType::LeftLine => "leftline",
        FrameType::TopLine => "topline",
        FrameType::BottomLine => "bottomline",
        FrameType::Lines => "lines",
        FrameType::Single => "single",
    }
}

/// The document configuration. All fields are required; decoding a
/// configuration file with a field missing or mistyped fails before a
/// value of this type exists.
#[derive(Clone, Debug)]
pub struct Config {
    /// Paper kind.
    pub layout: PaperType,
    /// Landscape orientation.
    pub landscape: bool,
    /// Left margin.
    pub lmargin: String,
    /// Right margin.
    pub rmargin: String,
    /// Top margin.
    pub tmargin: String,
    /// Bottom margin.
    pub bmargin: String,
    /// Head rule thickness.
    pub headrulewidth: String,
    /// Foot rule thickness.
    pub footrulewidth: String,
    /// Head height.
    pub headheight: String,
    /// Head separation.
    pub headsep: String,
    /// Foot separation.
    pub footskip: String,
    /// Document title.
    pub title: String,
    /// Document author.
    pub author: String,
    /// University name, shown in the page header.
    pub university: String,
    /// Team name, shown in the page header.
    pub team: String,
    /// Number of columns for the body.
    pub ncols: u8,
    /// Number of columns for the table of contents.
    pub ncolstoc: u8,
    /// Column separation.
    pub columnsep: String,
    /// Whether the table of contents gets a page of its own.
    pub separatetoc: bool,
    /// Font size.
    pub fontsize: String,
    /// Width a tab character expands to, in spaces.
    pub tabsize: u8,
    /// Show line numbers in code blocks.
    pub linenos: bool,
    /// Distance of line numbers from the code.
    pub numbersep: String,
    /// Allow math in comments.
    pub mathescape: bool,
    /// Remove unnecessary leading whitespace.
    pub autogobble: bool,
    /// Render spaces visibly.
    pub showspaces: bool,
    /// Render tabs visibly.
    pub showtabs: bool,
    /// Allow line breaks in code.
    pub breaklines: bool,
    /// Allow line breaks anywhere.
    pub breakanywhere: bool,
    /// Indent broken lines.
    pub breakautoindent: bool,
    /// Frame around code blocks.
    pub frame: FrameType,
    /// Distance between frame and content.
    pub framesep: String,
    /// Frame thickness.
    pub framerule: String,
    /// Highlighter color style.
    pub style: String,
}

/// Whether the paper kind is one of the two rule-compliant kinds. A
/// non-compliant kind only warrants a warning; compilation proceeds
/// unchanged.
pub fn paper_is_compliant(c: &Config) -> (b: bool)
    ensures
        b == (c.layout == PaperType::A4Paper || c.layout == PaperType::LetterPaper),
{
    c.layout == PaperType::A4Paper || c.layout == PaperType::LetterPaper
}

} // verus!
