use dirlist::pattern::Pattern;
use dirlist::walker::{DirItem, WalkEvent, WalkStep, Walker};

fn file(path: &str) -> DirItem {
    DirItem { path: path.to_string(), is_directory: false }
}

fn dir(path: &str) -> DirItem {
    DirItem { path: path.to_string(), is_directory: true }
}

fn pattern(source: &str) -> Pattern {
    match Pattern::compile(source) {
        Ok(pattern) => pattern,
        Err(error) => panic!("pattern did not compile: {}", error.message),
    }
}

fn read(path: &str) -> Option<WalkEvent> {
    let items = match path {
        "root" => vec![file("root/a.txt"), dir("root/sub"), file("root/b.txt"), dir("root/.git")],
        "root/sub" => vec![file("root/sub/c.txt"), file("root/sub/d.log"), dir("root/sub/deep")],
        "root/sub/deep" => vec![file("root/sub/deep/e.txt")],
        "root/.git" => vec![file("root/.git/config.txt")],
        "empty" => vec![],
        _ => return Some(WalkEvent::Unreadable),
    };
    Some(WalkEvent::Listing(items))
}

fn run(root: &str, source: &str) -> (Vec<String>, Vec<String>, Vec<String>) {
    let mut walker = Walker::new(root.to_string(), pattern(source));
    let mut asked: Vec<String> = Vec::new();
    let mut event = None;
    loop {
        match walker.step(event) {
            WalkStep::Done => break,
            WalkStep::Read(path) => {
                event = read(&path);
                asked.push(path);
            }
        }
        assert!(asked.len() < 100);
    }
    (walker.found().clone(), walker.failed().clone(), asked)
}

#[test]
fn walk_collects_matching_files_depth_first() {
    let (found, failed, asked) = run("root", "\\.txt$");
    assert_eq!(
        found,
        vec![
            "root/a.txt",
            "root/sub/c.txt",
            "root/sub/deep/e.txt",
            "root/b.txt",
            "root/.git/config.txt"
        ]
    );
    assert!(failed.is_empty());
    assert_eq!(asked, vec!["root", "root/sub", "root/sub/deep", "root/.git"]);
}

#[test]
fn walk_with_empty_pattern_collects_every_file() {
    let (found, _, _) = run("root", "");
    assert_eq!(
        found,
        vec![
            "root/a.txt",
            "root/sub/c.txt",
            "root/sub/d.log",
            "root/sub/deep/e.txt",
            "root/b.txt",
            "root/.git/config.txt"
        ]
    );
}

#[test]
fn walk_enters_directories_that_do_not_match() {
    let (found, _, asked) = run("root", "e\\.txt$");
    assert_eq!(found, vec!["root/sub/deep/e.txt"]);
    assert_eq!(asked.len(), 4);
}

#[test]
fn walk_never_collects_directories() {
    let (found, _, _) = run("root", "sub");
    assert_eq!(found, vec!["root/sub/c.txt", "root/sub/d.log", "root/sub/deep/e.txt"]);
}

#[test]
fn walk_of_an_empty_directory_finds_nothing() {
    let (found, failed, asked) = run("empty", "");
    assert!(found.is_empty());
    assert!(failed.is_empty());
    assert_eq!(asked, vec!["empty"]);
}

#[test]
fn unreadable_root_is_reported() {
    let (found, failed, asked) = run("missing", "");
    assert!(found.is_empty());
    assert_eq!(failed, vec!["missing"]);
    assert_eq!(asked, vec!["missing"]);
}

#[test]
fn unreadable_subdirectory_does_not_stop_the_walk() {
    let mut walker = Walker::new("top".to_string(), pattern(""));
    assert_eq!(walker.step(None), WalkStep::Read("top".to_string()));
    let listing = vec![file("top/1"), dir("top/locked"), file("top/2"), dir("top/open"), file("top/3")];
    assert_eq!(
        walker.step(Some(WalkEvent::Listing(listing))),
        WalkStep::Read("top/locked".to_string())
    );
    assert_eq!(walker.found(), &vec!["top/1".to_string()]);
    assert_eq!(walker.step(Some(WalkEvent::Unreadable)), WalkStep::Read("top/open".to_string()));
    assert_eq!(walker.failed(), &vec!["top/locked".to_string()]);
    assert_eq!(walker.found(), &vec!["top/1".to_string(), "top/2".to_string()]);
    assert_eq!(
        walker.step(Some(WalkEvent::Listing(vec![file("top/open/4")]))),
        WalkStep::Done
    );
    assert_eq!(walker.found(), &vec!["top/1", "top/2", "top/open/4", "top/3"]);
    assert_eq!(walker.failed(), &vec!["top/locked"]);
}

#[test]
fn request_is_repeated_until_answered() {
    let mut walker = Walker::new("top".to_string(), pattern(""));
    assert_eq!(walker.step(None), WalkStep::Read("top".to_string()));
    assert_eq!(walker.step(None), WalkStep::Read("top".to_string()));
    assert_eq!(walker.step(Some(WalkEvent::Listing(vec![file("top/x")]))), WalkStep::Done);
    assert_eq!(walker.found(), &vec!["top/x"]);
}

#[test]
fn event_without_request_is_ignored() {
    let mut walker = Walker::new("top".to_string(), pattern(""));
    let stray = Some(WalkEvent::Listing(vec![file("stray")]));
    assert_eq!(walker.step(stray), WalkStep::Read("top".to_string()));
    assert_eq!(walker.step(Some(WalkEvent::Listing(Vec::new()))), WalkStep::Done);
    assert!(walker.found().is_empty());
    assert_eq!(walker.step(Some(WalkEvent::Unreadable)), WalkStep::Done);
    assert!(walker.failed().is_empty());
}
