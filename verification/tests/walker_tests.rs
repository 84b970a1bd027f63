use lingo::{
    get_extensions, is_binary_sample, should_skip_path, ByteTotals, WalkAction, WalkEvent, Walker,
};

fn drive<F>(w: &mut Walker, mut respond: F)
where
    F: FnMut(&WalkAction) -> WalkEvent,
{
    let mut steps = 0;
    loop {
        let a = w.next_action();
        if matches!(a, WalkAction::Done) {
            break;
        }
        let e = respond(&a);
        w.handle(e);
        steps += 1;
        if steps > 10_000 {
            panic!("walk did not terminate");
        }
    }
}

fn names(v: &[&str]) -> Vec<String> {
    v.iter().map(|s| s.to_string()).collect()
}

// Typescript is entry 0, Javascript 1, Rust 8 in the registry.
const TS: usize = 0;
const JS: usize = 1;
const RS: usize = 8;

fn scenario_tree(a: &WalkAction) -> WalkEvent {
    match a {
        WalkAction::Stat { path } => match path.as_str() {
            "repo" => WalkEvent::Stat { is_file: false, size: 0 },
            "repo/a.ts" => WalkEvent::Stat { is_file: true, size: 1000 },
            "repo/b.js" => WalkEvent::Stat { is_file: true, size: 1000 },
            "repo/node_modules" => WalkEvent::Stat { is_file: false, size: 0 },
            other => panic!("unexpected stat of {}", other),
        },
        WalkAction::List { path } => match path.as_str() {
            "repo" => WalkEvent::Listing { names: names(&["a.ts", "b.js", "node_modules"]) },
            other => panic!("unexpected listing of {}", other),
        },
        WalkAction::ReadSample { path } => match path.as_str() {
            "repo/a.ts" | "repo/b.js" => WalkEvent::Sample { data: b"plain text".to_vec() },
            other => panic!("unexpected sample of {}", other),
        },
        WalkAction::Done => unreachable!(),
    }
}

fn walk_scenario_tree() -> ByteTotals {
    let mut w = Walker::new(get_extensions(), "repo".to_string());
    drive(&mut w, scenario_tree);
    w.into_totals()
}

#[test]
fn end_to_end_totals_exclude_nested_vendor_dir() {
    let totals = walk_scenario_tree();
    assert_eq!(totals.counts[TS], 1000);
    assert_eq!(totals.counts[JS], 1000);
    assert!(totals.observed[TS]);
    assert!(totals.observed[JS]);
    for i in 0..totals.counts.len() {
        if i != TS && i != JS {
            assert_eq!(totals.counts[i], 0);
            assert!(!totals.observed[i]);
        }
    }
}

#[test]
fn walker_never_lists_excluded_directory() {
    let mut w = Walker::new(get_extensions(), "repo".to_string());
    let mut listed: Vec<String> = Vec::new();
    drive(&mut w, |a| {
        if let WalkAction::List { path } = a {
            listed.push(path.clone());
        }
        scenario_tree(a)
    });
    assert_eq!(listed, vec!["repo".to_string()]);
}

#[test]
fn walker_recurses_into_name_that_merely_contains_excluded_substring() {
    let mut w = Walker::new(get_extensions(), "root".to_string());
    let mut listed: Vec<String> = Vec::new();
    drive(&mut w, |a| match a {
        WalkAction::Stat { path } => match path.as_str() {
            "root" | "root/node_modules_backup" | "root/node_modules" => {
                WalkEvent::Stat { is_file: false, size: 0 }
            }
            "root/node_modules_backup/k.kt" => WalkEvent::Stat { is_file: true, size: 7 },
            other => panic!("unexpected stat of {}", other),
        },
        WalkAction::List { path } => {
            listed.push(path.clone());
            match path.as_str() {
                "root" => WalkEvent::Listing {
                    names: names(&["node_modules", "node_modules_backup"]),
                },
                "root/node_modules_backup" => WalkEvent::Listing { names: names(&["k.kt"]) },
                other => panic!("unexpected listing of {}", other),
            }
        }
        WalkAction::ReadSample { .. } => WalkEvent::Sample { data: b"fun main()".to_vec() },
        WalkAction::Done => unreachable!(),
    });
    // the excluded directory is never listed; its near-namesake is
    assert_eq!(
        listed,
        vec!["root".to_string(), "root/node_modules_backup".to_string()]
    );
    let totals = w.into_totals();
    assert_eq!(totals.counts[7], 7); // Kotlin
}

#[test]
fn binary_file_is_excluded_regardless_of_extension() {
    let mut w = Walker::new(get_extensions(), "f.ts".to_string());
    drive(&mut w, |a| match a {
        WalkAction::Stat { .. } => WalkEvent::Stat { is_file: true, size: 4096 },
        WalkAction::ReadSample { .. } => WalkEvent::Sample { data: vec![65, 66, 0, 67] },
        _ => panic!("unexpected action"),
    });
    let totals = w.into_totals();
    assert_eq!(totals.counts[TS], 0);
    assert!(!totals.observed[TS]);
}

#[test]
fn text_file_is_counted_with_full_length_not_sample_length() {
    let mut w = Walker::new(get_extensions(), "f.rs".to_string());
    drive(&mut w, |a| match a {
        WalkAction::Stat { .. } => WalkEvent::Stat { is_file: true, size: 5000 },
        // the sample is far shorter than the file; the stat size counts
        WalkAction::ReadSample { .. } => WalkEvent::Sample { data: b"fn main()".to_vec() },
        _ => panic!("unexpected action"),
    });
    let totals = w.into_totals();
    assert_eq!(totals.counts[RS], 5000);
}

#[test]
fn unreadable_sample_fails_open_as_text() {
    let mut w = Walker::new(get_extensions(), "f.py".to_string());
    drive(&mut w, |a| match a {
        WalkAction::Stat { .. } => WalkEvent::Stat { is_file: true, size: 123 },
        WalkAction::ReadSample { .. } => WalkEvent::SampleFailed,
        _ => panic!("unexpected action"),
    });
    let totals = w.into_totals();
    assert_eq!(totals.counts[11], 123); // Python
}

#[test]
fn unrecognized_extension_is_skipped_silently() {
    let mut w = Walker::new(get_extensions(), "f.xyz".to_string());
    drive(&mut w, |a| match a {
        WalkAction::Stat { .. } => WalkEvent::Stat { is_file: true, size: 999 },
        WalkAction::ReadSample { .. } => WalkEvent::Sample { data: b"data".to_vec() },
        _ => panic!("unexpected action"),
    });
    let totals = w.into_totals();
    assert!(totals.counts.iter().all(|&c| c == 0));
    assert!(totals.observed.iter().all(|&o| !o));
}

#[test]
fn walking_an_unchanged_tree_twice_yields_identical_totals() {
    let first = walk_scenario_tree();
    let second = walk_scenario_tree();
    assert_eq!(first, second);
}

#[test]
fn nested_directories_are_walked_depth_first_in_listing_order() {
    let mut w = Walker::new(get_extensions(), "top".to_string());
    let mut stats: Vec<String> = Vec::new();
    drive(&mut w, |a| match a {
        WalkAction::Stat { path } => {
            stats.push(path.clone());
            match path.as_str() {
                "top" | "top/sub" => WalkEvent::Stat { is_file: false, size: 0 },
                "top/sub/deep.go" => WalkEvent::Stat { is_file: true, size: 300 },
                "top/late.c" => WalkEvent::Stat { is_file: true, size: 40 },
                other => panic!("unexpected stat of {}", other),
            }
        }
        WalkAction::List { path } => match path.as_str() {
            "top" => WalkEvent::Listing { names: names(&["sub", "late.c"]) },
            "top/sub" => WalkEvent::Listing { names: names(&["deep.go"]) },
            other => panic!("unexpected listing of {}", other),
        },
        WalkAction::ReadSample { .. } => WalkEvent::Sample { data: b"text".to_vec() },
        WalkAction::Done => unreachable!(),
    });
    // the first-listed child's subtree is finished before its sibling
    assert_eq!(stats, vec!["top", "top/sub", "top/sub/deep.go", "top/late.c"]);
    let totals = w.into_totals();
    assert_eq!(totals.counts[9], 300); // Go
    assert_eq!(totals.counts[12], 40); // C
}

#[test]
fn replaying_recorded_events_is_deterministic() {
    let events = || {
        vec![
            WalkEvent::Stat { is_file: false, size: 0 },
            WalkEvent::Listing { names: names(&["a.ts", "b.js"]) },
            WalkEvent::Stat { is_file: true, size: 10 },
            WalkEvent::Sample { data: b"x".to_vec() },
            WalkEvent::Stat { is_file: true, size: 20 },
            WalkEvent::Sample { data: b"y".to_vec() },
        ]
    };
    let mut w1 = Walker::new(get_extensions(), "r".to_string());
    w1.run_events(events());
    let mut w2 = Walker::new(get_extensions(), "r".to_string());
    w2.run_events(events());
    assert!(w1.is_done());
    assert!(w2.is_done());
    let t1 = w1.into_totals();
    let t2 = w2.into_totals();
    assert_eq!(t1.counts[TS], 10);
    assert_eq!(t1.counts[JS], 20);
    assert_eq!(t1, t2);
}

#[test]
fn exhausted_retries_contribute_zero_and_spare_siblings() {
    let mut w = Walker::new(get_extensions(), "r".to_string());
    let mut bad_stats = 0;
    drive(&mut w, |a| match a {
        WalkAction::Stat { path } => match path.as_str() {
            "r" => WalkEvent::Stat { is_file: false, size: 0 },
            "r/bad" => {
                bad_stats += 1;
                WalkEvent::StatFailed
            }
            "r/good.rs" => WalkEvent::Stat { is_file: true, size: 10 },
            other => panic!("unexpected stat of {}", other),
        },
        WalkAction::List { path } => match path.as_str() {
            "r" => WalkEvent::Listing { names: names(&["bad", "good.rs"]) },
            other => panic!("unexpected listing of {}", other),
        },
        WalkAction::ReadSample { .. } => WalkEvent::Sample { data: b"ok".to_vec() },
        WalkAction::Done => unreachable!(),
    });
    // the failing path was attempted exactly three times, then given up
    assert_eq!(bad_stats, 3);
    let totals = w.into_totals();
    assert_eq!(totals.counts[RS], 10);
    assert!(totals.counts.iter().enumerate().all(|(i, &c)| i == RS || c == 0));
}

#[test]
fn listing_failure_is_retried_then_subtree_dropped() {
    let mut w = Walker::new(get_extensions(), "r".to_string());
    let mut lists = 0;
    drive(&mut w, |a| match a {
        WalkAction::Stat { path } => match path.as_str() {
            "r" => WalkEvent::Stat { is_file: false, size: 0 },
            other => panic!("unexpected stat of {}", other),
        },
        WalkAction::List { .. } => {
            lists += 1;
            WalkEvent::ListFailed
        }
        _ => panic!("unexpected action"),
    });
    assert_eq!(lists, 3);
    let totals = w.into_totals();
    assert!(totals.counts.iter().all(|&c| c == 0));
}

#[test]
fn mismatched_event_leaves_walker_unchanged() {
    let mut w = Walker::new(get_extensions(), "r".to_string());
    // a Stat is pending, so a listing answer does not fit
    assert!(matches!(w.next_action(), WalkAction::Stat { .. }));
    w.handle(WalkEvent::ListFailed);
    assert!(matches!(w.next_action(), WalkAction::Stat { .. }));
    assert!(!w.is_done());
}

#[test]
fn sniffer_detects_nul_within_window() {
    assert!(is_binary_sample(&vec![0u8]));
    assert!(!is_binary_sample(&Vec::new()));
    assert!(!is_binary_sample(&b"all text here".to_vec()));
    let mut edge = vec![1u8; 8000];
    edge[7999] = 0;
    assert!(is_binary_sample(&edge));
    let mut past = vec![1u8; 8001];
    past[8000] = 0;
    assert!(!is_binary_sample(&past));
}

#[test]
fn skip_matches_whole_segments_only() {
    assert!(should_skip_path("node_modules"));
    assert!(should_skip_path("a/node_modules/b"));
    assert!(should_skip_path("x/target"));
    assert!(should_skip_path("x/.git"));
    assert!(should_skip_path("ios/Pods"));
    assert!(!should_skip_path("node_modules_backup"));
    assert!(!should_skip_path("targeted_docs"));
    assert!(!should_skip_path("bin-utils"));
    assert!(!should_skip_path("src/main.rs"));
    assert!(!should_skip_path(""));
    assert!(should_skip_path("generated"));
    assert!(!should_skip_path("regenerated"));
}
