use backup_sync::relative_path::{
    clean_composed, is_windows_reserved, sanitize_windows_component, RelativePath,
    RelativePathError, Remainder, MAX_PATH_LENGTH,
};

#[test]
fn test_windows_forbidden_chars_allowed() {
    // These are allowed in the canonical representation
    assert!(RelativePath::new("file:name.txt").is_ok());
    assert!(RelativePath::new("what?.txt").is_ok());
    assert!(RelativePath::new("file<>name.txt").is_ok());
}

#[test]
fn test_windows_safe_conversion() {
    let p = RelativePath::new("file:name?.txt").unwrap();
    assert_eq!(p.as_ref(), "file:name?.txt"); // Original preserved
    assert_eq!(p.to_windows_safe(), "file_name_.txt"); // Sanitized for Windows
}

#[test]
fn test_windows_reserved_names() {
    let p = RelativePath::new("CON").unwrap();
    assert_eq!(p.to_windows_safe(), "_CON");

    let p = RelativePath::new("dir/NUL.txt").unwrap();
    assert_eq!(p.to_windows_safe(), "dir\\_NUL.txt");
}

#[test]
fn test_has_windows_incompatible() {
    let p = RelativePath::new("normal.txt").unwrap();
    assert!(!p.has_windows_incompatible_chars());

    let p = RelativePath::new("file:name.txt").unwrap();
    assert!(p.has_windows_incompatible_chars());

    let p = RelativePath::new("CON").unwrap();
    assert!(p.has_windows_incompatible_chars());
}

#[test]
fn test_unicode_normalization() {
    // e + combining acute accent (NFD) should normalize to é (NFC)
    let nfd = "cafe\u{0301}"; // NFD form
    let p = RelativePath::new(nfd).unwrap();
    assert_eq!(p.as_ref(), "café"); // NFC form
}

#[test]
fn test_still_rejects_truly_invalid() {
    assert!(RelativePath::new("").is_err());
    assert!(RelativePath::new("/absolute").is_err());
    assert!(RelativePath::new("../escape").is_err());
    assert!(RelativePath::new("file\0name").is_err()); // Null byte
}

#[test]
fn test_native_path_conversion() {
    let p = RelativePath::new("dir/file:name.txt").unwrap();

    if std::path::is_separator('\\') {
        assert_eq!(p.to_native_string(), "dir\\file_name.txt");
    } else {
        assert_eq!(p.to_native_string(), "dir/file:name.txt");
    }
    assert_eq!(p.native_string_for(true), "dir\\file_name.txt");
    assert_eq!(p.native_string_for(false), "dir/file:name.txt");
}

#[test]
fn nfd_and_nfc_inputs_give_equal_paths() {
    let composed = RelativePath::new("caf\u{00e9}/na\u{00ef}ve.txt").unwrap();
    let decomposed = RelativePath::new("cafe\u{0301}/nai\u{0308}ve.txt").unwrap();
    assert_eq!(composed, decomposed);
    assert_eq!(composed.to_string(), decomposed.to_string());
}

#[test]
fn canonical_form_is_a_fixed_point() {
    for input in ["a//b/./c", "dir\\sub\\file.txt", "./x", "a/b/", "cafe\u{0301}"] {
        let once = RelativePath::new(input).unwrap();
        let twice = RelativePath::new(once.as_str()).unwrap();
        assert_eq!(once, twice);
        assert_eq!(once.to_string(), twice.to_string());
    }
    assert_eq!(RelativePath::new("a//b/./c").unwrap().as_str(), "a/b/c");
    assert_eq!(RelativePath::new("dir\\sub\\file.txt").unwrap().as_str(), "dir/sub/file.txt");
}

#[test]
fn length_limit_is_4096_bytes() {
    assert_eq!(MAX_PATH_LENGTH, 4096);
    let exactly = "a".repeat(4096);
    let accepted = RelativePath::new(&exactly).unwrap();
    assert_eq!(accepted.as_str().len(), 4096);

    let over = "a".repeat(4097);
    match RelativePath::new(&over) {
        Err(RelativePathError::TooLong { max, got }) => {
            assert_eq!(max, 4096);
            assert_eq!(got, 4097);
        }
        other => panic!("expected TooLong, got {:?}", other),
    }

    // Bytes count, not characters: 2048 two-byte characters fit, 2049 do not.
    assert!(RelativePath::new(&"\u{00e9}".repeat(2048)).is_ok());
    assert!(matches!(
        RelativePath::new(&"\u{00e9}".repeat(2049)),
        Err(RelativePathError::TooLong { max: 4096, got: 4098 })
    ));
}

#[test]
fn each_refusal_has_its_error() {
    assert!(matches!(RelativePath::new(""), Err(RelativePathError::Empty)));
    assert!(matches!(RelativePath::new("./."), Err(RelativePathError::Empty)));
    assert!(matches!(RelativePath::new("//"), Err(RelativePathError::Absolute(_))));
    match RelativePath::new("/etc/passwd") {
        Err(RelativePathError::Absolute(text)) => assert_eq!(text, "/etc/passwd"),
        other => panic!("expected Absolute, got {:?}", other),
    }
    match RelativePath::new("C:\\Users") {
        Err(RelativePathError::Absolute(text)) => assert_eq!(text, "C:\\Users"),
        other => panic!("expected Absolute, got {:?}", other),
    }
    assert!(matches!(RelativePath::new("a/../b"), Err(RelativePathError::ParentTraversal)));
    assert!(matches!(RelativePath::new("a\\..\\b"), Err(RelativePathError::ParentTraversal)));
    assert!(matches!(RelativePath::new("a\u{0007}b"), Err(RelativePathError::InvalidCharacters)));
    assert!(matches!(RelativePath::new("a\u{0085}b"), Err(RelativePathError::InvalidCharacters)));
    assert!(RelativePath::new("a\tb").is_ok());
}

#[test]
fn a_drive_prefix_is_refused_after_cleaning_too() {
    // "./a:b" would clean to "a:b", which reads as a drive prefix.
    assert!(matches!(RelativePath::new("./a:b"), Err(RelativePathError::Absolute(_))));
    assert!(RelativePath::new("ab:c").is_ok());
}

#[test]
fn join_revalidates() {
    let base = RelativePath::new("dir").unwrap();
    assert_eq!(base.join("file.txt").unwrap().as_str(), "dir/file.txt");
    assert_eq!(base.join("a/./b").unwrap().as_str(), "dir/a/b");
    assert!(matches!(base.join("../x"), Err(RelativePathError::ParentTraversal)));
    assert!(matches!(base.join("a\0"), Err(RelativePathError::InvalidCharacters)));
}

#[test]
fn file_name_is_the_last_component() {
    assert_eq!(RelativePath::new("a/b/c.txt").unwrap().file_name(), Some("c.txt"));
    assert_eq!(RelativePath::new("single").unwrap().file_name(), Some("single"));
    assert_eq!(RelativePath::new("d/caf\u{00e9}").unwrap().file_name(), Some("caf\u{00e9}"));
}

#[test]
fn reserved_names_in_any_case_and_with_extension() {
    for name in ["CON", "con", "Prn", "aux", "NUL", "nul.txt", "COM1", "com9.log", "LPT1", "lpt9"] {
        assert!(is_windows_reserved(name), "{name}");
    }
    for name in ["CONSOLE", "COM0", "COM10", "LPT", "LPT0", "file", "", "co", "xCON", "NU.L"] {
        assert!(!is_windows_reserved(name), "{name}");
    }
}

#[test]
fn components_are_sanitized_for_windows() {
    assert_eq!(sanitize_windows_component("CON"), "_CON");
    assert_eq!(sanitize_windows_component("nul.txt"), "_nul.txt");
    assert_eq!(sanitize_windows_component("name."), "name_");
    assert_eq!(sanitize_windows_component("name. . "), "name_");
    assert_eq!(sanitize_windows_component("name "), "name_");
    assert_eq!(sanitize_windows_component("plain.txt"), "plain.txt");
    assert_eq!(sanitize_windows_component(""), "");
    let p = RelativePath::new("a/b.../c d ").unwrap();
    assert_eq!(p.to_windows_safe(), "a\\b_\\c d_");
    let q = RelativePath::new("x<y>/z|w*").unwrap();
    assert_eq!(q.to_windows_safe(), "x_y_\\z_w_");
}

#[test]
fn paths_convert_to_native_paths() {
    let p = RelativePath::new("dir/file.txt").unwrap();
    let base = std::path::Path::new("base");
    assert_eq!(p.resolve(base), base.join(p.to_path_buf()));
    let below = RelativePath::from_path(&base.join("dir").join("file.txt"), base).unwrap();
    assert_eq!(below, p);
    assert!(matches!(
        RelativePath::from_path(std::path::Path::new("elsewhere/file.txt"), base),
        Err(RelativePathError::Absolute(_))
    ));
}

#[test]
fn paths_are_ordered_by_their_canonical_text() {
    let mut paths: Vec<RelativePath> = ["b/a", "a/c", "a/b", "a", "B", "a b", "\u{00e9}"]
        .iter()
        .map(|p| RelativePath::new(p).unwrap())
        .collect();
    paths.sort();
    let sorted: Vec<&str> = paths.iter().map(|p| p.as_str()).collect();
    assert_eq!(sorted, vec!["B", "a", "a b", "a/b", "a/c", "b/a", "\u{00e9}"]);
    assert!(RelativePath::new("a/b").unwrap() < RelativePath::new("a/c").unwrap());
    assert_eq!(RelativePath::new("x//y").unwrap(), RelativePath::new("x/y").unwrap());
    assert_ne!(RelativePath::new("x").unwrap(), RelativePath::new("X").unwrap());
    let mut set = std::collections::HashSet::new();
    set.insert(RelativePath::new("x/./y").unwrap());
    assert!(set.contains(&RelativePath::new("x\\\\y").unwrap()));
}

#[test]
fn a_native_path_holds_the_native_rendering() {
    for text in ["dir/file.txt", "a", "x<y>/z|w*", "b.../c d ", "CON/\u{00e9}"] {
        let p = RelativePath::new(text).unwrap();
        let native = p.to_path_buf();
        assert_eq!(native.to_str(), Some(p.to_native_string().as_str()));
        assert_eq!(native, std::path::PathBuf::from(p.to_native_string()));
    }
    let p = RelativePath::new("dir/file.txt").unwrap();
    let rendered = p.to_path_buf();
    let text = rendered.to_str().unwrap();
    assert!(text == "dir/file.txt" || text == "dir\\file.txt");
}

#[test]
fn a_remainder_becomes_a_path_or_a_refusal() {
    match RelativePath::from_remainder(Remainder::Outside { shown: "/etc/passwd".to_string() }) {
        Err(RelativePathError::Absolute(shown)) => assert_eq!(shown, "/etc/passwd"),
        other => panic!("unexpected result: {:?}", other),
    }
    assert!(matches!(
        RelativePath::from_remainder(Remainder::NotUnicode),
        Err(RelativePathError::InvalidUtf8)
    ));
    let below = RelativePath::from_remainder(Remainder::Below { text: "./a//b/".to_string() });
    assert_eq!(below.unwrap().as_str(), "a/b");
    assert!(matches!(
        RelativePath::from_remainder(Remainder::Below { text: "a/../b".to_string() }),
        Err(RelativePathError::ParentTraversal)
    ));
    assert!(matches!(
        RelativePath::from_remainder(Remainder::Below { text: String::new() }),
        Err(RelativePathError::Empty)
    ));
}

#[test]
fn a_path_below_a_base_is_taken_relative_to_it() {
    let base = std::path::Path::new("base");
    let below = RelativePath::from_path(&base.join("dir").join("file.txt"), base).unwrap();
    assert_eq!(below.as_str(), "dir/file.txt");
    match RelativePath::from_path(std::path::Path::new("elsewhere/file.txt"), base) {
        Err(RelativePathError::Absolute(shown)) => {
            assert_eq!(shown, std::path::Path::new("elsewhere/file.txt").display().to_string());
        }
        other => panic!("unexpected result: {:?}", other),
    }
    assert!(matches!(RelativePath::from_path(base, base), Err(RelativePathError::Empty)));
}

#[test]
fn a_composed_text_is_cleaned() {
    assert_eq!(clean_composed("./a//b/").unwrap(), "a/b");
    assert_eq!(clean_composed("a\\b\\c.txt").unwrap(), "a/b/c.txt");
    assert_eq!(clean_composed("dir/./file..txt").unwrap(), "dir/file..txt");
    assert_eq!(clean_composed("a\tb").unwrap(), "a\tb");
    assert!(matches!(clean_composed("a/../b"), Err(RelativePathError::ParentTraversal)));
    assert!(matches!(clean_composed("./."), Err(RelativePathError::Empty)));
    assert!(matches!(clean_composed(""), Err(RelativePathError::Empty)));
    assert!(matches!(clean_composed("a\u{0}b"), Err(RelativePathError::InvalidCharacters)));
    assert!(matches!(clean_composed("a\nb"), Err(RelativePathError::InvalidCharacters)));
    match clean_composed("/etc/passwd") {
        Err(RelativePathError::Absolute(text)) => assert_eq!(text, "/etc/passwd"),
        other => panic!("unexpected result: {:?}", other),
    }
    match clean_composed("C:\\Windows") {
        Err(RelativePathError::Absolute(text)) => assert_eq!(text, "C:\\Windows"),
        other => panic!("unexpected result: {:?}", other),
    }
    match clean_composed("./c:/x") {
        Err(RelativePathError::Absolute(text)) => assert_eq!(text, "./c:/x"),
        other => panic!("unexpected result: {:?}", other),
    }
    let long = "a/".repeat(2047) + "b";
    assert_eq!(clean_composed(&long).unwrap(), long);
}

#[test]
fn a_cleaned_text_must_fit_the_limit() {
    let fits = "a".repeat(MAX_PATH_LENGTH);
    assert_eq!(clean_composed(&fits).unwrap(), fits);
    let over = "a".repeat(MAX_PATH_LENGTH + 1);
    assert!(matches!(
        clean_composed(&over),
        Err(RelativePathError::TooLong { max: 4096, got: 4097 })
    ));
    // What is dropped does not count.
    let padded = "./".repeat(10) + &fits;
    assert_eq!(clean_composed(&padded).unwrap(), fits);
}

#[test]
fn refusals_say_what_is_wrong() {
    assert_eq!(RelativePathError::Empty.message(), "path cannot be empty");
    assert_eq!(
        RelativePathError::Absolute("/etc".to_string()).message(),
        "path cannot be absolute: /etc"
    );
    assert_eq!(
        RelativePathError::ParentTraversal.message(),
        "path cannot contain parent directory references (..)"
    );
    assert_eq!(
        RelativePathError::InvalidCharacters.message(),
        "path contains invalid characters"
    );
    assert_eq!(
        RelativePathError::TooLong { max: 4096, got: 4097 }.message(),
        "path is too long (max 4096 bytes, got 4097)"
    );
    assert_eq!(RelativePathError::InvalidUtf8.message(), "invalid UTF-8 in path");
    assert_eq!(
        RelativePath::new("a/../b").unwrap_err().message(),
        "path cannot contain parent directory references (..)"
    );
}
