use repo_push::{
    Args, Checkpoint, CommitRef, Config, ConfigError, DEFAULT_WINDOW_SIZE, RECORD_LEN, decode,
    dir_name, encode, fresh_dir_name, partition, worktree_label,
};

fn c(k: u32) -> CommitRef {
    CommitRef::new(0, 0, k)
}

#[test]
fn partition_of_five_by_two() {
    let commits: Vec<CommitRef> = (1..=5).map(c).collect();
    let w = partition(&commits, 2);
    assert_eq!(w, vec![vec![c(1), c(2)], vec![c(3), c(4)], vec![c(5)]]);
}

#[test]
fn partition_counts_round_up() {
    for n in 0u32..12 {
        for size in 1usize..6 {
            let commits: Vec<CommitRef> = (0..n).map(c).collect();
            let w = partition(&commits, size);
            assert_eq!(w.len(), (n as usize + size - 1) / size);
            let flat: Vec<CommitRef> = w.iter().flatten().copied().collect();
            assert_eq!(flat, commits);
        }
    }
}

#[test]
fn partition_of_nothing_is_empty() {
    assert!(partition(&Vec::new(), 3).is_empty());
}

#[test]
fn partition_window_larger_than_walk() {
    let commits: Vec<CommitRef> = (1..=3).map(c).collect();
    assert_eq!(partition(&commits, usize::MAX), vec![commits.clone()]);
}

#[test]
fn args_reject_zero_window() {
    let r = Args::create(String::from("/r"), false, true, 0, String::from("c.toml"));
    assert_eq!(r.unwrap_err(), ConfigError::ZeroWindowSize);
}

#[test]
fn args_accept_nonzero_window() {
    for size in [1usize, 10, usize::MAX] {
        assert!(Args::create(String::from("/r"), false, true, size, String::from("c.toml")).is_ok());
    }
}

#[test]
fn args_keep_given_values() {
    let a = Args::create(String::from("/r"), true, false, 3, String::from("c.toml")).unwrap();
    assert_eq!(a.path, "/r");
    assert!(a.overwrite);
    assert!(!a.resume);
    assert_eq!(a.window_size, 3);
    assert_eq!(a.config_file, "c.toml");
}

#[test]
fn args_defaults() {
    let a = Args::with_defaults(String::from("/r"));
    assert!(!a.overwrite);
    assert!(a.resume);
    assert_eq!(a.window_size, DEFAULT_WINDOW_SIZE);
    assert_eq!(DEFAULT_WINDOW_SIZE, 10);
    assert_eq!(a.config_file, "./config.toml");
}

#[test]
fn config_org_name() {
    assert_eq!(Config::new(Some(String::from("acme"))).org_name(), Some("acme"));
    assert_eq!(Config::new(None).org_name(), None);
}

#[test]
fn checkpoint_round_trip() {
    let cp = Checkpoint {
        commit: CommitRef::new(0x0123_4567_89ab_cdef, 0xfedc_ba98_7654_3210, 0xdead_beef),
        timestamp: 1_700_000_000,
    };
    let bytes = encode(&cp);
    assert_eq!(bytes.len(), RECORD_LEN);
    assert_eq!(&bytes[..4], b"RPCK");
    assert_eq!(&bytes[4..12], &[0x01, 0x23, 0x45, 0x67, 0x89, 0xab, 0xcd, 0xef]);
    assert_eq!(&bytes[20..24], &[0xde, 0xad, 0xbe, 0xef]);
    assert_eq!(decode(&bytes), Some(cp));
}

#[test]
fn checkpoint_truncated_is_rejected() {
    let cp = Checkpoint { commit: c(7), timestamp: 42 };
    let bytes = encode(&cp);
    for k in 0..RECORD_LEN {
        assert_eq!(decode(&bytes[..k].to_vec()), None);
    }
}

#[test]
fn checkpoint_wrong_magic_is_rejected() {
    let mut bytes = encode(&Checkpoint { commit: c(7), timestamp: 42 });
    bytes[0] = b'X';
    assert_eq!(decode(&bytes), None);
}

#[test]
fn worktree_names() {
    assert_eq!(worktree_label(), "repo_push_worktree");
    assert_eq!(dir_name("abc"), "repo_push_worktree-abc");
}

#[test]
fn fresh_worktree_names_differ() {
    let a = fresh_dir_name();
    let b = fresh_dir_name();
    assert_eq!(a.len(), "repo_push_worktree-".len() + 36);
    assert!(a.starts_with("repo_push_worktree-"));
    let suffix: Vec<char> = a["repo_push_worktree-".len()..].chars().collect();
    for (i, ch) in suffix.iter().enumerate() {
        if [8, 13, 18, 23].contains(&i) {
            assert_eq!(*ch, '-');
        } else {
            assert!(ch.is_ascii_digit() || ('a'..='f').contains(ch));
        }
    }
    assert_ne!(a, b);
}

#[test]
fn config_text_with_org_name() {
    let text = "# organisation settings\n\norg_name = \"acme corp\"\nregion=\"eu\"\n";
    let c = Config::from_text(text).unwrap();
    assert_eq!(c.org_name(), Some("acme corp"));
}

#[test]
fn config_text_first_org_name_wins() {
    let c = Config::from_text("org_name = \"first\"\norg_name = \"second\"").unwrap();
    assert_eq!(c.org_name(), Some("first"));
}

#[test]
fn config_text_without_org_name() {
    let c = Config::from_text("other = \"x\"\n").unwrap();
    assert_eq!(c.org_name(), None);
    assert_eq!(Config::from_text("").unwrap().org_name(), None);
}

#[test]
fn config_text_malformed_lines() {
    for bad in [
        "org_name \"acme\"",
        "org_name = acme",
        "= \"acme\"",
        "org_name = \"acme\" trailing",
        "org_name = \"ac\"me\"",
        "ok = \"1\"\nbroken",
    ] {
        assert_eq!(Config::from_text(bad).unwrap_err(), ConfigError::Malformed, "{bad}");
    }
}

#[test]
fn config_text_non_ascii_value() {
    let c = Config::from_text("org_name = \"Zürich AG\"").unwrap();
    assert_eq!(c.org_name(), Some("Zürich AG"));
}

#[test]
fn config_text_other_keys_any_value() {
    let c = Config::from_text("n = 1\norg_name = \"a\"").unwrap();
    assert_eq!(c.org_name(), Some("a"));
    let c = Config::from_text("flag = true\nlist = [1, 2]\n").unwrap();
    assert_eq!(c.org_name(), None);
}

#[test]
fn config_text_toml_layout() {
    let text = "[org]\r\n  org_name = \"acme\"   # the organisation\r\n\tother=\"x\"\r\n";
    let c = Config::from_text(text).unwrap();
    assert_eq!(c.org_name(), Some("acme"));
}

#[test]
fn config_text_unterminated_org_name() {
    assert_eq!(Config::from_text("org_name = \"acme").unwrap_err(), ConfigError::Malformed);
}
