use rlist::local::{
    color_wanted, confirmed, db_side_files, note_from_editor, note_template, pdf_cache_name,
    typed_note,
};

#[test]
fn pdf_cache_names_hash_the_url() {
    assert_eq!(pdf_cache_name(12, "https://arxiv.org/pdf/1706.03762"), "12-1d011c9c.pdf");
    assert_ne!(
        pdf_cache_name(12, "https://arxiv.org/pdf/1706.03762"),
        pdf_cache_name(12, "https://arxiv.org/pdf/1706.03762v2")
    );
    assert!(pdf_cache_name(-3, "").starts_with("-3-"));
}

#[test]
fn side_files_of_a_database() {
    assert_eq!(db_side_files("/tmp/x.db"), vec!["/tmp/x.db", "/tmp/x.db-wal", "/tmp/x.db-shm"]);
}

#[test]
fn confirmations() {
    assert!(confirmed("y\n"));
    assert!(confirmed(" yes "));
    assert!(confirmed("Y"));
    assert!(!confirmed("YES"));
    assert!(!confirmed("no"));
    assert!(!confirmed(""));
}

#[test]
fn notes_typed_or_edited() {
    assert_eq!(typed_note("  key idea  ").as_deref(), Some("key idea"));
    assert_eq!(typed_note(" \n "), None);
    let template = note_template(3, "Attention");
    assert_eq!(template, "\n# Note on #3 Attention\n# Lines starting with '#' are ignored.\n");
    let saved = format!("{template}first line\r\n   # a comment\n\nsecond\n");
    assert_eq!(note_from_editor(&saved), "first line\n\nsecond");
    assert_eq!(note_from_editor(&template), "");
    assert_eq!(note_from_editor(""), "");
}

#[test]
fn color_needs_a_terminal() {
    assert!(color_wanted(false, false, true));
    assert!(!color_wanted(true, false, true));
    assert!(!color_wanted(false, true, true));
    assert!(!color_wanted(false, false, false));
}

#[test]
fn uninstall_plans() {
    let soft = rlist::local::uninstall_plan(false, "/tmp/x.db", false, &[true, true, true], true);
    assert!(!soft.remove_data_dir && soft.data_files.is_empty() && !soft.remove_cache);
    let own = rlist::local::uninstall_plan(true, "/d/rlist.db", true, &[true, true, true], false);
    assert!(own.remove_data_dir && own.data_files.is_empty() && !own.remove_cache);
    let custom = rlist::local::uninstall_plan(true, "/tmp/x.db", false, &[true, false, true], true);
    assert!(!custom.remove_data_dir && custom.remove_cache);
    assert_eq!(custom.data_files, vec!["/tmp/x.db", "/tmp/x.db-shm"]);
}
