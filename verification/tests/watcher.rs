use orange_yeoman::config::CONFIG_FILE_NAME;
use orange_yeoman::watcher::classify::{classify_event, ClassifiedChange, WatchEvent, WatchKind};

fn event_at(kind: WatchKind, path: &str) -> WatchEvent {
    WatchEvent { kind, paths: vec![path.to_string()] }
}

#[test]
fn create_event_is_structure() {
    let root = "/repo";
    let path = format!("{root}/note.md");
    let event = event_at(WatchKind::Create, &path);
    assert_eq!(classify_event(root, &event), Some(ClassifiedChange::Create(path)));
}

#[test]
fn remove_event_is_structure() {
    let root = "/repo";
    let path = format!("{root}/note.md");
    let event = event_at(WatchKind::Remove, &path);
    assert_eq!(classify_event(root, &event), Some(ClassifiedChange::Remove(path)));
}

// A single-path rename (as the macOS watcher reports it) classifies as Structure with the
// carried path.
#[test]
fn single_path_rename_event_is_structure() {
    let root = "/repo";
    let path = format!("{root}/note.md");
    let event = event_at(WatchKind::RenameAny, &path);
    assert_eq!(
        classify_event(root, &event),
        Some(ClassifiedChange::Structure(path))
    );
}

// A matched rename arrives with paths [from, to] when it
// matched the pair; the classification carries both ends.
#[test]
fn both_paths_rename_event_carries_from_to() {
    let root = "/repo";
    let from = format!("{root}/old.md");
    let to = format!("{root}/new.md");
    let event = WatchEvent { kind: WatchKind::RenameBoth, paths: vec![from.clone(), to.clone()] };
    assert_eq!(
        classify_event(root, &event),
        Some(ClassifiedChange::Rename { from, to })
    );
}

// The unpaired from side of a rename classifies as removal (old path gone).
#[test]
fn rename_from_event_is_remove() {
    let root = "/repo";
    let path = format!("{root}/old.md");
    let event = event_at(WatchKind::RenameFrom, &path);
    assert_eq!(classify_event(root, &event), Some(ClassifiedChange::Remove(path)));
}

// The unpaired to side of a rename classifies as creation (new path present).
#[test]
fn rename_to_event_is_create() {
    let root = "/repo";
    let path = format!("{root}/new.md");
    let event = event_at(WatchKind::RenameTo, &path);
    assert_eq!(classify_event(root, &event), Some(ClassifiedChange::Create(path)));
}

// A rename that notify-debouncer-full could not interpret (RenameMode::Other)
// is skipped entirely.
#[test]
fn rename_other_event_is_none() {
    let root = "/repo";
    let path = format!("{root}/note.md");
    let event = event_at(WatchKind::RenameOther, &path);
    assert_eq!(classify_event(root, &event), None);
}

#[test]
fn markdown_data_modify_is_content() {
    let root = "/repo";
    let path = format!("{root}/note.md");
    let event = event_at(WatchKind::DataModify, &path);
    assert_eq!(
        classify_event(root, &event),
        Some(ClassifiedChange::Content(path))
    );
}

#[test]
fn uppercase_markdown_extension_is_content() {
    let root = "/repo";
    let path = format!("{root}/NOTE.MD");
    let event = event_at(WatchKind::DataModify, &path);
    assert_eq!(
        classify_event(root, &event),
        Some(ClassifiedChange::Content(path))
    );
}

#[test]
fn non_markdown_data_modify_is_none() {
    let root = "/repo";
    let path = format!("{root}/notes.txt");
    let event = event_at(WatchKind::DataModify, &path);
    assert_eq!(classify_event(root, &event), None);
}

#[test]
fn nested_dotfile_path_is_none() {
    let root = "/repo";
    let path = format!("{root}/.obsidian/workspace.json");
    let event = event_at(WatchKind::Create, &path);
    assert_eq!(classify_event(root, &event), None);
}

#[test]
fn repository_config_path_is_config() {
    let root = "/repo";
    let path = format!("{root}/{CONFIG_FILE_NAME}");
    let event = event_at(WatchKind::DataModify, &path);
    assert_eq!(classify_event(root, &event), Some(ClassifiedChange::Config));
}

#[test]
fn dotfile_named_root_still_reports_children() {
    let root = "/Users/joe/.notes";
    let path = format!("{root}/note.md");
    let event = event_at(WatchKind::DataModify, &path);
    assert_eq!(
        classify_event(root, &event),
        Some(ClassifiedChange::Content(path))
    );
}
