use rec::{DirEntryInfo, ExtAggregator, TopFiles};

fn entry(path: &str, size: u64) -> DirEntryInfo {
    DirEntryInfo { path: path.to_string(), size }
}

fn sizes(t: &TopFiles) -> Vec<u64> {
    t.entries().iter().map(|e| e.size).collect()
}

fn paths(t: &TopFiles) -> Vec<String> {
    t.entries().iter().map(|e| e.path.clone()).collect()
}

#[test]
fn top_files_keeps_largest_with_ties_first_seen() {
    let mut t = TopFiles::new(2);
    for (p, s) in [("a.txt", 10), ("b.txt", 2000), ("c.log", 500), ("d.bin", 2000), ("e", 1)] {
        t.offer(entry(p, s));
    }
    assert_eq!(sizes(&t), vec![2000, 2000]);
    assert_eq!(paths(&t), vec!["b.txt".to_string(), "d.bin".to_string()]);
}

#[test]
fn top_files_length_is_min_of_k_and_offers() {
    let mut t = TopFiles::new(5);
    t.offer(entry("x", 3));
    t.offer(entry("y", 7));
    t.offer(entry("z", 5));
    assert_eq!(sizes(&t), vec![7, 5, 3]);
    let mut big = TopFiles::new(3);
    for i in 0..10u64 {
        big.offer(entry("f", (i * 7) % 10));
    }
    assert_eq!(sizes(&big), vec![9, 8, 7]);
}

#[test]
fn top_files_zero_capacity_keeps_nothing() {
    let mut t = TopFiles::new(0);
    t.offer(entry("a", 100));
    t.offer(entry("b", 0));
    assert!(t.entries().is_empty());
    assert_eq!(t.min_size(), 0);
}

#[test]
fn top_files_min_size() {
    let mut t = TopFiles::new(2);
    assert_eq!(t.min_size(), 0);
    t.offer(entry("a", 40));
    assert_eq!(t.min_size(), 0);
    t.offer(entry("b", 30));
    assert_eq!(t.min_size(), 30);
    t.offer(entry("c", 35));
    assert_eq!(t.min_size(), 35);
    t.offer(entry("d", 35));
    assert_eq!(t.min_size(), 35);
    assert_eq!(paths(&t), vec!["a".to_string(), "c".to_string()]);
}

#[test]
fn top_files_keeps_small_files_while_not_full() {
    let mut t = TopFiles::new(3);
    t.offer(entry("a", 10));
    t.offer(entry("b", 5));
    t.offer(entry("c", 0));
    assert_eq!(sizes(&t), vec![10, 5, 0]);
}

#[test]
fn ext_aggregate_top_one_and_others() {
    let mut a = ExtAggregator::new();
    a.add("txt".to_string(), 10);
    a.add("txt".to_string(), 2000);
    a.add("log".to_string(), 500);
    a.add("bin".to_string(), 2000);
    let st = a.finish(1);
    assert_eq!(st.top_by_ext.len(), 1);
    assert_eq!(st.top_by_ext[0].ext, "txt");
    assert_eq!(st.top_by_ext[0].size, 2010);
    assert_eq!(st.others_size, 2500);
    let total: u64 = st.top_by_ext.iter().map(|e| e.size).sum::<u64>() + st.others_size;
    assert_eq!(total, 4510);
}

#[test]
fn ext_aggregate_ties_in_first_seen_order() {
    let mut a = ExtAggregator::new();
    a.add("rs".to_string(), 7);
    a.add("md".to_string(), 9);
    a.add("toml".to_string(), 7);
    let st = a.finish(5);
    let exts: Vec<&str> = st.top_by_ext.iter().map(|e| e.ext.as_str()).collect();
    assert_eq!(exts, vec!["md", "rs", "toml"]);
    assert_eq!(st.others_size, 0);
}

#[test]
fn ext_aggregate_empty() {
    let a = ExtAggregator::new();
    let st = a.finish(3);
    assert!(st.top_by_ext.is_empty());
    assert_eq!(st.others_size, 0);
}
