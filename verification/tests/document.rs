use vcf::vcf::is_valid;

// The headers are handed over as text, one line after the other.

#[test]
fn test_invalid_without_file_format_on_first_line() {
    let header = String::from("fileDate=20090805");
    assert!(!is_valid(header));
}

#[test]
fn test_invalid_without_valid_file_format_version() {
    let header = String::from("##fileformat=VCFx");
    assert!(!is_valid(header));
}
