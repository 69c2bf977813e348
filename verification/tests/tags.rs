use traversal_core::tags::{CombinedTagList, TagIndex, TagList, TagLocation};

fn names(index: &TagIndex) -> Vec<String> {
    index.entries().iter().map(|e| e.name.clone()).collect()
}

fn places(locs: &Vec<TagLocation>) -> Vec<(String, u64, String)> {
    locs.iter()
        .map(|l| (l.path.clone(), l.line_number, l.line_content.clone()))
        .collect()
}

fn site_count(list: &TagList) -> usize {
    list.targets.entries().iter().map(|e| e.locations.len()).sum::<usize>()
        + list.links.entries().iter().map(|e| e.locations.len()).sum::<usize>()
}

#[test]
fn new_list_is_empty() {
    let list = TagList::new();
    assert!(list.targets.is_empty());
    assert!(list.links.is_empty());
    assert_eq!(list.targets.len(), 0);
}

#[test]
fn record_line_files_target() {
    let mut list = TagList::new();
    list.record_line("src/a.rs", Some(3), b"// [traverse-tgt: entry]\n");
    assert_eq!(names(&list.targets), vec!["entry".to_string()]);
    assert!(list.links.is_empty());
    let locs = list.targets.get("entry").unwrap();
    assert_eq!(places(locs), vec![("src/a.rs".to_string(), 3, "entry".to_string())]);
}

#[test]
fn record_line_files_link() {
    let mut list = TagList::new();
    list.record_line("b.md", Some(10), b"see [traverse-lnk: entry]");
    assert!(list.targets.is_empty());
    let locs = list.links.get("entry").unwrap();
    assert_eq!(places(locs), vec![("b.md".to_string(), 10, "entry".to_string())]);
}

#[test]
fn record_line_without_tag_changes_nothing() {
    let mut list = TagList::new();
    list.record_line("a", Some(1), b"[traverse-tgt: x]");
    list.record_line("a", Some(2), b"nothing here");
    list.record_line("a", Some(3), b"[traverse-tgt: x y]");
    list.record_line("a", Some(4), &[0xff, 0xfe]);
    assert_eq!(site_count(&list), 1);
}

#[test]
fn unknown_line_number_counts_as_zero() {
    let mut list = TagList::new();
    list.record_line("a", None, b"[traverse-lnk: q]");
    assert_eq!(places(list.links.get("q").unwrap()), vec![("a".to_string(), 0, "q".to_string())]);
}

#[test]
fn same_name_shares_an_entry_in_order() {
    let mut list = TagList::new();
    list.record_line("a", Some(1), b"[traverse-tgt: one]");
    list.record_line("a", Some(2), b"[traverse-tgt: two]");
    list.record_line("b", Some(7), b"[traverse-tgt: one]");
    assert_eq!(names(&list.targets), vec!["one".to_string(), "two".to_string()]);
    assert_eq!(
        places(list.targets.get("one").unwrap()),
        vec![("a".to_string(), 1, "one".to_string()), ("b".to_string(), 7, "one".to_string())]
    );
    assert!(list.targets.get("three").is_none());
    assert_eq!(list.targets.len(), 2);
}

#[test]
fn only_the_first_tag_of_a_line_is_recorded() {
    let mut list = TagList::new();
    list.record_line("a", Some(1), b"[traverse-tgt: one] [traverse-lnk: two]");
    assert_eq!(site_count(&list), 1);
    assert!(list.links.is_empty());
}

#[test]
fn each_location_is_filed_under_its_own_name() {
    let mut list = TagList::new();
    for (i, line) in ["[traverse-tgt: a]", "[traverse-tgt: b]", "[traverse-tgt: a]", "[traverse-lnk: a]"]
        .iter()
        .enumerate()
    {
        list.record_line("f", Some(i as u64 + 1), line.as_bytes());
    }
    for index in [&list.targets, &list.links] {
        for entry in index.entries() {
            assert!(!entry.locations.is_empty());
            for loc in &entry.locations {
                assert_eq!(loc.line_content, entry.name);
            }
        }
    }
    assert_eq!(site_count(&list), 4);
}

#[test]
fn direct_insert_files_by_line_content() {
    let mut index = TagIndex::new();
    index.insert(TagLocation { path: "p".to_string(), line_number: 5, line_content: "k".to_string() });
    index.insert(TagLocation { path: "q".to_string(), line_number: 6, line_content: "k".to_string() });
    assert_eq!(index.len(), 1);
    assert_eq!(index.get("k").unwrap().len(), 2);
}

#[test]
fn duplicate_copies_all_fields() {
    let loc = TagLocation { path: "p".to_string(), line_number: 9, line_content: "n".to_string() };
    let copy = loc.duplicate();
    assert_eq!((copy.path, copy.line_number, copy.line_content), ("p".to_string(), 9, "n".to_string()));
}

#[test]
fn take_moves_tags_out() {
    let mut list = TagList::new();
    list.record_line("a", Some(1), b"[traverse-tgt: t]");
    list.record_line("a", Some(2), b"[traverse-lnk: l]");
    let moved = list.take();
    assert!(list.targets.is_empty() && list.links.is_empty());
    assert_eq!(names(&moved.targets), vec!["t".to_string()]);
    assert_eq!(names(&moved.links), vec!["l".to_string()]);
}

#[test]
fn absorb_appends_list_and_empties_buffer() {
    let mut combined = CombinedTagList::new();
    assert_eq!(combined.tag_lists.len(), 0);
    let mut buffer = TagList::new();
    buffer.record_line("a", Some(1), b"[traverse-tgt: t]");
    combined.absorb(&mut buffer);
    buffer.record_line("b", Some(2), b"[traverse-lnk: l]");
    combined.absorb(&mut buffer);
    assert!(buffer.targets.is_empty() && buffer.links.is_empty());
    assert_eq!(combined.tag_lists.len(), 2);
    assert_eq!(names(&combined.tag_lists[0].targets), vec!["t".to_string()]);
    assert!(combined.tag_lists[0].links.is_empty());
    assert_eq!(names(&combined.tag_lists[1].links), vec!["l".to_string()]);
    assert!(combined.tag_lists[1].targets.is_empty());
}
