use file_explorer::display::{format_file_size, format_size, truncate_filename, FileCategory};
use file_explorer::history::NavigationHistory;
use file_explorer::models::{AppState, CurrentPathLens, EntryKind, FileDetail, FileItem, NodeKind};
use file_explorer::path::FsPath;

fn path(text: &str) -> FsPath {
    FsPath::new(
        "/".to_string(),
        text.split('/').filter(|s| !s.is_empty()).map(|s| s.to_string()).collect(),
    )
}

fn by_floats(size: u64) -> String {
    if size < 1024 {
        format!("{} B", size)
    } else if size < 1024 * 1024 {
        format!("{:.1} KB", size as f64 / 1024.0)
    } else if size < 1024 * 1024 * 1024 {
        format!("{:.1} MB", size as f64 / (1024.0 * 1024.0))
    } else {
        format!("{:.1} GB", size as f64 / (1024.0 * 1024.0 * 1024.0))
    }
}

fn file_kind(ext: &str) -> EntryKind {
    EntryKind::File { extension: Some(ext.to_string()) }
}

#[test]
fn small_sizes_are_given_in_bytes() {
    assert_eq!(format_size(0), "0 B");
    assert_eq!(format_size(1), "1 B");
    assert_eq!(format_size(1023), "1023 B");
}

#[test]
fn larger_sizes_are_given_with_one_decimal() {
    assert_eq!(format_size(1024), "1.0 KB");
    assert_eq!(format_size(1536), "1.5 KB");
    assert_eq!(format_size(10 * 1024), "10.0 KB");
    assert_eq!(format_size(1024 * 1024 - 1), "1024.0 KB");
    assert_eq!(format_size(1024 * 1024), "1.0 MB");
    assert_eq!(format_size(5 * 1024 * 1024 + 300 * 1024), "5.3 MB");
    assert_eq!(format_size(1024 * 1024 * 1024), "1.0 GB");
    assert_eq!(format_size(3 * 1024 * 1024 * 1024 / 2), "1.5 GB");
    assert_eq!(format_size(u64::MAX), "17179869184.0 GB");
}

#[test]
fn a_tie_is_rounded_to_the_even_tenth() {
    assert_eq!(format_size(1280), "1.2 KB");
    assert_eq!(format_size(1024 + 358), "1.3 KB");
    assert_eq!(format_size(1024 + 359), "1.4 KB");
    assert_eq!(format_size(1024 * 3 + 768), "3.8 KB");
    assert_eq!(format_size(1024 * 3 + 256), "3.2 KB");
}

#[test]
fn sizes_agree_with_rounding_in_floating_point() {
    let mut size: u64 = 0;
    while size < 4096 {
        assert_eq!(format_size(size), by_floats(size));
        size += 1;
    }
    let mut size: u64 = 1;
    let mut step: u64 = 1;
    while size < (1u64 << 50) {
        assert_eq!(format_size(size), by_floats(size));
        assert_eq!(format_size(size - 1), by_floats(size - 1));
        size += step;
        step = step * 3 + 7;
    }
    for q in 0..2000u64 {
        let tie = 1024 * 1024 * q + 1024 * 1024 / 4;
        assert_eq!(format_size(tie), by_floats(tie));
        let tie = (1024 * 1024 * 1024 / 20) * (2 * q + 21);
        assert_eq!(format_size(tie), by_floats(tie));
    }
}

#[test]
fn a_directory_shows_no_size() {
    let d = FileDetail {
        name: "docs".to_string(),
        size: 4096,
        kind: EntryKind::Directory,
        modified: "just now".to_string(),
        full_path: path("/docs"),
    };
    assert_eq!(format_file_size(&d), "");
    let f = FileDetail { kind: file_kind("txt"), name: "a.txt".to_string(), ..d.clone() };
    assert_eq!(format_file_size(&f), "4.0 KB");
}

#[test]
fn a_short_name_stays_whole() {
    assert_eq!(truncate_filename("notes.txt", 40), "notes.txt");
    assert_eq!(truncate_filename("", 40), "");
    let exact = "a".repeat(40);
    assert_eq!(truncate_filename(&exact, 40), exact);
}

#[test]
fn a_long_name_keeps_its_extension() {
    let name = format!("{}.txt", "a".repeat(50));
    let cut = truncate_filename(&name, 40);
    assert_eq!(cut, format!("{}....txt", "a".repeat(33)));
    assert_eq!(cut.chars().count(), 40);
}

#[test]
fn a_long_name_without_a_fitting_extension_is_cut_at_the_end() {
    let name = "b".repeat(60);
    assert_eq!(truncate_filename(&name, 40), format!("{}...", "b".repeat(37)));
    let long_ending = format!("{}.{}", "c".repeat(30), "d".repeat(20));
    assert_eq!(truncate_filename(&long_ending, 40), format!("{}...", &long_ending[..37]));
    let early_dot = format!("abcde.{}", "x".repeat(8));
    assert_eq!(truncate_filename(&early_dot, 10), "abcde.x...");
}

#[test]
fn names_are_cut_by_characters_not_bytes() {
    let name = format!("{}.png", "é".repeat(50));
    assert_eq!(truncate_filename(&name, 40), format!("{}....png", "é".repeat(33)));
}

#[test]
fn a_width_too_small_keeps_nothing_of_the_front() {
    assert_eq!(truncate_filename("abcdefgh", 2), "...");
    assert_eq!(truncate_filename("abcdefgh.txt", 5), "....txt");
    assert_eq!(truncate_filename("abcdefgh", 0), "...");
}

#[test]
fn the_extension_names_the_category() {
    assert_eq!(EntryKind::Directory.category(), FileCategory::Folder);
    assert_eq!(EntryKind::File { extension: None }.category(), FileCategory::Regular);
    for e in ["txt", "md", "json", "xml", "html", "css", "js", "py", "rs", "c", "cpp", "h", "hpp", "java", "go", "php", "rb"] {
        assert_eq!(file_kind(e).category(), FileCategory::Text);
    }
    for e in ["jpg", "jpeg", "png", "gif", "bmp", "svg", "ico"] {
        assert_eq!(file_kind(e).category(), FileCategory::Image);
    }
    for e in ["mp3", "wav", "flac", "ogg", "aac"] {
        assert_eq!(file_kind(e).category(), FileCategory::Audio);
    }
    for e in ["mp4", "avi", "mkv", "mov", "wmv"] {
        assert_eq!(file_kind(e).category(), FileCategory::Video);
    }
    for e in ["zip", "rar", "7z", "tar", "gz"] {
        assert_eq!(file_kind(e).category(), FileCategory::Archive);
    }
    for e in ["exe", "dll", "so", "dylib"] {
        assert_eq!(file_kind(e).category(), FileCategory::Executable);
    }
    for e in ["", "pdf", "TXT", "txtx", "tx", "docx"] {
        assert_eq!(file_kind(e).category(), FileCategory::Regular);
    }
}

fn blank_state(selected: Option<FsPath>) -> AppState {
    AppState {
        root: FileItem {
            name: "Files".to_string(),
            is_expanded: true,
            is_loaded: true,
            children: Vec::new(),
            path: FsPath::new(String::new(), Vec::new()),
            is_selected: false,
            kind: NodeKind::Category,
        },
        selected_path: selected,
        current_dir_files: Vec::new(),
        history: NavigationHistory::new(),
    }
}

#[test]
fn an_edited_path_is_shown_and_recorded() {
    let lens = CurrentPathLens;
    let mut data = blank_state(Some(path("/home")));
    assert_eq!(lens.get(&data), Some(path("/home")));
    lens.put(&mut data, path("/home"));
    assert_eq!(data.history.len(), 0);
    lens.put(&mut data, path("/usr"));
    assert_eq!(data.selected_path, Some(path("/usr")));
    assert_eq!(data.history.len(), 1);
    assert_eq!(data.history.current(), Some(&path("/usr")));
}

#[test]
fn an_empty_path_is_not_shown_where_nothing_was() {
    let lens = CurrentPathLens;
    let mut data = blank_state(None);
    assert_eq!(lens.get(&data), None);
    lens.put(&mut data, FsPath::new(String::new(), Vec::new()));
    assert_eq!(data.selected_path, None);
    assert_eq!(data.history.len(), 0);
    lens.put(&mut data, path("/"));
    assert_eq!(data.selected_path, Some(path("/")));
    assert_eq!(data.history.len(), 1);
}
