use watch_filter::error::WatcherError;
use watch_filter::resolve::find_path_to_watch;
use watch_filter::resolve::mode_for;
use watch_filter::resolve::Candidate;
use watch_filter::resolve::PathKind;
use watch_filter::resolve::RecursiveMode;
use watch_filter::resolve::WatchTarget;

fn chain(entries: &[(&str, PathKind)]) -> Vec<Candidate> {
    entries.iter().map(|(path, kind)| Candidate::new(path.to_string(), *kind)).collect()
}

fn target(path: &str, mode: RecursiveMode) -> Result<WatchTarget, WatcherError> {
    Ok(WatchTarget { path: path.to_string(), mode })
}

#[test]
fn existing_directory_is_watched_recursively() {
    let found = find_path_to_watch(&chain(&[
        ("/home/me/notes", PathKind::Directory),
        ("/home/me", PathKind::Directory),
        ("/home", PathKind::Directory),
        ("/", PathKind::Directory),
    ]));
    assert_eq!(found, target("/home/me/notes", RecursiveMode::Recursive));
}

#[test]
fn existing_file_is_watched_alone() {
    let found = find_path_to_watch(&chain(&[
        ("/home/me/note.md", PathKind::File),
        ("/home/me", PathKind::Directory),
        ("/home", PathKind::Directory),
        ("/", PathKind::Directory),
    ]));
    assert_eq!(found, target("/home/me/note.md", RecursiveMode::NonRecursive));
}

#[test]
fn missing_file_in_existing_directory_watches_the_parent_alone() {
    let found = find_path_to_watch(&chain(&[
        ("/home/me/note.md", PathKind::Missing),
        ("/home/me", PathKind::Directory),
        ("/home", PathKind::Directory),
        ("/", PathKind::Directory),
    ]));
    assert_eq!(found, target("/home/me", RecursiveMode::NonRecursive));
}

#[test]
fn deeper_missing_path_watches_the_nearest_ancestor_recursively() {
    let found = find_path_to_watch(&chain(&[
        ("D/a/b/c", PathKind::Missing),
        ("D/a/b", PathKind::Missing),
        ("D/a", PathKind::Missing),
        ("D", PathKind::Directory),
        ("", PathKind::Missing),
    ]));
    assert_eq!(found, target("D", RecursiveMode::Recursive));
}

#[test]
fn grandparent_is_watched_recursively() {
    let found = find_path_to_watch(&chain(&[
        ("work/draft/out.md", PathKind::Missing),
        ("work/draft", PathKind::Missing),
        ("work", PathKind::Directory),
    ]));
    assert_eq!(found, target("work", RecursiveMode::Recursive));
}

#[test]
fn ancestor_that_is_a_file_counts_as_existing() {
    let found = find_path_to_watch(&chain(&[
        ("a/b/c", PathKind::Missing),
        ("a/b", PathKind::File),
        ("a", PathKind::Directory),
    ]));
    assert_eq!(found, target("a/b", RecursiveMode::NonRecursive));
}

#[test]
fn nothing_existing_is_unresolvable() {
    let found = find_path_to_watch(&chain(&[
        ("/x/y/z", PathKind::Missing),
        ("/x/y", PathKind::Missing),
        ("/x", PathKind::Missing),
        ("/", PathKind::Missing),
    ]));
    assert_eq!(found, Err(WatcherError::Unresolvable));
}

#[test]
fn empty_chain_is_unresolvable() {
    assert_eq!(find_path_to_watch(&Vec::new()), Err(WatcherError::Unresolvable));
}

#[test]
fn mode_follows_depth_and_kind() {
    assert_eq!(mode_for(0, PathKind::Directory), RecursiveMode::Recursive);
    assert_eq!(mode_for(0, PathKind::File), RecursiveMode::NonRecursive);
    assert_eq!(mode_for(1, PathKind::Directory), RecursiveMode::NonRecursive);
    assert_eq!(mode_for(1, PathKind::File), RecursiveMode::NonRecursive);
    assert_eq!(mode_for(2, PathKind::Directory), RecursiveMode::Recursive);
    assert_eq!(mode_for(7, PathKind::Directory), RecursiveMode::Recursive);
}
