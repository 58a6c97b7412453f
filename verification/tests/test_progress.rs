use zfish::progress::ProgressBar;

#[test]
fn test_progress_bar_creation() {
    let pb = ProgressBar::new(100);

    // Test that we can create a progress bar without errors
    // Default width should be 40
    assert_eq!(pb.width, 40);
}
