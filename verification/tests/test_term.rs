use zfish::term::Terminal;

#[test]
fn test_term_test_terminal_size() {
    let size = Terminal::size();
    assert!(size.is_some());

    if let Some((width, height)) = size {
        assert!(width > 0);
        assert!(height > 0);
        println!("Terminal size: {}x{}", width, height);
    }
}

#[test]
fn test_term_comprehensive_test_terminal_size() {
    let size = Terminal::size();
    // May be None if not in a terminal
    match size {
        Some((rows, cols)) => {
            assert!(rows > 0, "Rows should be positive");
            assert!(cols > 0, "Columns should be positive");
        }
        None => {
            // Expected in non-terminal environments
        }
    }
}

#[test]
fn test_terminal_size_multiple_calls() {
    let s1 = Terminal::size();
    let s2 = Terminal::size();
    let s3 = Terminal::size();
    assert_eq!(s1, s2);
    assert_eq!(s2, s3);
}

#[test]
fn test_terminal_size_bounds() {
    if let Some((rows, cols)) = Terminal::size() {
        // Reasonable terminal sizes
        assert!((1..=10000).contains(&rows), "Rows should be reasonable");
        assert!((1..=10000).contains(&cols), "Cols should be reasonable");
    }
}
