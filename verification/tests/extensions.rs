use watch_filter::extensions::strip_dot;
use watch_filter::extensions::FileExtensions;

fn extensions(patterns: &[&str]) -> FileExtensions {
    FileExtensions::new(patterns.iter().map(|pattern| pattern.to_string()).collect())
}

#[test]
fn pattern_may_carry_its_dot() {
    assert_eq!(strip_dot(&".md".to_string()), "md");
    assert_eq!(strip_dot(&"md".to_string()), "md");
    assert_eq!(strip_dot(&"..md".to_string()), ".md");
    assert_eq!(strip_dot(&".".to_string()), "");
    assert_eq!(strip_dot(&"".to_string()), "");
    assert_eq!(strip_dot(&".\u{e9}t\u{e9}".to_string()), "\u{e9}t\u{e9}");
}

#[test]
fn path_with_configured_extension_matches() {
    let md = extensions(&[".md"]);
    assert!(md.matches("note.md"));
    assert!(md.matches("/home/me/notes/note.md"));
    assert!(md.matches("archive.tar.md"));
    assert!(extensions(&["md"]).matches("note.md"));
}

#[test]
fn path_with_other_extension_does_not_match() {
    let md = extensions(&[".md"]);
    assert!(!md.matches("note.txt"));
    assert!(!md.matches("note.mdx"));
    assert!(!md.matches("note.MD"));
    assert!(!md.matches("md"));
    assert!(!md.matches("notemd"));
    assert!(!md.matches("note.md/readme"));
}

#[test]
fn path_without_extension_does_not_match() {
    let md = extensions(&[".md", "markdown"]);
    assert!(!md.matches("README"));
    assert!(!md.matches(".md"));
    assert!(!md.matches("/home/me/.markdown"));
    assert!(!md.matches(""));
    assert!(!md.matches("note."));
}

#[test]
fn any_of_several_extensions_matches() {
    let several = extensions(&["md", ".mkd", "markdown"]);
    assert_eq!(several.len(), 3);
    assert!(several.matches("a.md"));
    assert!(several.matches("a.mkd"));
    assert!(several.matches("a.markdown"));
    assert!(!several.matches("a.html"));
}

#[test]
fn no_extensions_match_nothing() {
    let none = extensions(&[]);
    assert_eq!(none.len(), 0);
    assert!(!none.matches("note.md"));
}

#[test]
fn accepts_compares_whole_extensions() {
    let md = extensions(&[".md"]);
    assert!(md.accepts(&"md".to_string()));
    assert!(!md.accepts(&".md".to_string()));
    assert!(!md.accepts(&"m".to_string()));
    assert!(md.accepts_optional(&Some("md".to_string())));
    assert!(!md.accepts_optional(&Some("txt".to_string())));
    assert!(!md.accepts_optional(&None));
}

#[test]
fn clone_keeps_the_extensions() {
    let copy = extensions(&[".md", "txt"]).clone();
    assert_eq!(copy.len(), 2);
    assert!(copy.matches("a.md"));
    assert!(copy.matches("a.txt"));
    assert!(!copy.matches("a.rs"));
}
