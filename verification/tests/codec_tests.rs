use notebook_compiler::codec::{decode_layout, encode_layout};
use notebook_compiler::outline::OutlineEntry;

#[test]
fn decode_three_levels() {
    let entries = decode_layout("Graphs\n\tDijkstra\n\t\tproj/graphs/dijkstra.cpp\n");
    assert_eq!(
        entries,
        vec![
            OutlineEntry::Section("Graphs".to_string()),
            OutlineEntry::SubSection("Dijkstra".to_string()),
            OutlineEntry::File("proj/graphs/dijkstra.cpp".to_string()),
        ]
    );
}

#[test]
fn decode_drops_blank_lines() {
    let entries = decode_layout("\n\nAlpha\n\n\tBeta\n   \n");
    assert_eq!(
        entries,
        vec![
            OutlineEntry::Section("Alpha".to_string()),
            OutlineEntry::SubSection("Beta".to_string()),
        ]
    );
}

#[test]
fn decode_trims_trailing_whitespace() {
    let entries = decode_layout("Alpha   \n\tBeta\t\n");
    assert_eq!(
        entries,
        vec![
            OutlineEntry::Section("Alpha".to_string()),
            OutlineEntry::SubSection("Beta".to_string()),
        ]
    );
}

#[test]
fn decode_two_or_more_tabs_is_file() {
    let entries = decode_layout("\t\t\ta/b.rs\n");
    assert_eq!(entries, vec![OutlineEntry::File("a/b.rs".to_string())]);
}

#[test]
fn encode_one_line_per_entry() {
    let outline = vec![
        OutlineEntry::Section("Graphs".to_string()),
        OutlineEntry::SubSection("Dijkstra".to_string()),
        OutlineEntry::File("proj/graphs/dijkstra.cpp".to_string()),
    ];
    let text = encode_layout(&outline);
    assert_eq!(text, "Graphs\n\tDijkstra\n\t\tproj/graphs/dijkstra.cpp\n");
}

#[test]
fn encode_trims_trailing_whitespace() {
    let outline = vec![OutlineEntry::Section("Alpha  ".to_string())];
    assert_eq!(encode_layout(&outline), "Alpha\n");
}

#[test]
fn encode_whitespace_only_label_gives_blank_line() {
    let outline = vec![OutlineEntry::SubSection("   ".to_string())];
    assert_eq!(encode_layout(&outline), "\n");
}

#[test]
fn round_trip_keeps_entries() {
    let outline = vec![
        OutlineEntry::Section("Data Structures".to_string()),
        OutlineEntry::SubSection("Fenwick Tree".to_string()),
        OutlineEntry::File("proj/ds/fenwick.cpp".to_string()),
        OutlineEntry::File("proj/ds/segment tree.cpp".to_string()),
        OutlineEntry::Section("Math".to_string()),
    ];
    let decoded = decode_layout(&encode_layout(&outline));
    assert_eq!(decoded, outline);
}

#[test]
fn round_trip_keeps_interior_tabs_in_paths() {
    let outline = vec![OutlineEntry::File("a\tb.rs".to_string())];
    let decoded = decode_layout(&encode_layout(&outline));
    assert_eq!(decoded, outline);
}
