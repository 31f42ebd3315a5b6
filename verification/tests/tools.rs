use dvs::tools::tool_name;

#[test]
fn tool_names_collapse_both_separators() {
    assert_eq!(tool_name("clip.split"), "clip_split");
    assert_eq!(tool_name("title.set-text"), "title_set_text");
    assert_eq!(tool_name("seq.auto-cut-scenes"), "seq_auto_cut_scenes");
}
