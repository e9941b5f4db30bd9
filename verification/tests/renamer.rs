use nae::parser::ErrorCode;
use nae::renamer::Renamer;

#[test]
fn test_renamer_substitutes_original_name() {
    let mut renamer = Renamer::new();
    let name = renamer
        .rename("test_renamer_1.txt", "test_renamer_1\\0.txt")
        .unwrap();
    assert_eq!(name, "test_renamer_1test_renamer_1.txt.txt");
}

#[test]
fn test_renamer_counter_advances_per_file() {
    let mut renamer = Renamer::new();
    assert_eq!(renamer.rename("a.txt", "file_?").unwrap(), "file_1");
    assert_eq!(renamer.rename("b.txt", "file_?").unwrap(), "file_2");
    assert_eq!(renamer.rename("c.txt", "file_???").unwrap(), "file_003");
}

#[test]
fn test_renamer_preview_equals_real_computation() {
    // two sessions in the same state compute the same name for the same
    // file and pattern, so a preview agrees with the eventual run
    let mut preview = Renamer::new();
    let mut real = Renamer::new();
    let pattern = "kept_??_\\0";
    assert_eq!(
        preview.rename("f.txt", pattern).unwrap(),
        real.rename("f.txt", pattern).unwrap()
    );
}

#[test]
fn test_renamer_propagates_pattern_error() {
    let mut renamer = Renamer::new();
    let e = renamer.rename("f.txt", "x\\Q").unwrap_err();
    assert_eq!(e.code, ErrorCode::InvalidCharacter);
    assert_eq!(e.column, 2);
    assert_eq!(e.message, "Invalid character: Q");
}
