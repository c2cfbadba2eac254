use std::path::Path;
use videoeditor::path_name::{file_extension, file_stem};

#[test]
fn extensions_and_stems_match_std_path() {
    for name in ["a.html", "a.b.c", "noext", ".hidden", ".hidden.txt", "trailing.", "..", "", "x..y"] {
        let p = Path::new(name);
        let ext = p.extension().map(|e| e.to_string_lossy().to_string());
        assert_eq!(file_extension(name), ext, "extension of {name:?}");
        if let Some(stem) = p.file_stem() {
            assert_eq!(file_stem(name), stem.to_string_lossy(), "stem of {name:?}");
        }
    }
}
