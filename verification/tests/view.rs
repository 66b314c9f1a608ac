use filtro::view::human_size;

/// The formula of the terminal report, with floating point.
fn reference(bytes: usize) -> String {
    const KIO: usize = 1024;
    const MIO: usize = KIO * 1024;
    match bytes {
        0..=1023 => format!("{bytes} o"),
        1024..=1_048_575 => format!("{:.1} Kio", bytes as f64 / KIO as f64),
        _ => format!("{:.1} Mio", bytes as f64 / MIO as f64),
    }
}

#[test]
fn tailles_lisibles() {
    assert_eq!(human_size(0), "0 o");
    assert_eq!(human_size(1023), "1023 o");
    assert_eq!(human_size(1024), "1.0 Kio");
    assert_eq!(human_size(1536), "1.5 Kio");
    assert_eq!(human_size(1_048_576), "1.0 Mio");
    assert_eq!(human_size(5 * 1_048_576 + 524_288), "5.5 Mio");
}

#[test]
fn arrondi_comme_le_format_a_une_decimale() {
    // Ties: 1280 / 1024 = 1.25 exactly.
    for bytes in [1280usize, 1331, 1382, 2304, 3328, 1_048_575, 1_153_433, 1_310_720, 1_363_148] {
        assert_eq!(human_size(bytes), reference(bytes), "{bytes}");
    }
    for bytes in (1000usize..200_000).step_by(97) {
        assert_eq!(human_size(bytes), reference(bytes), "{bytes}");
    }
    for bytes in (1_000_000usize..3_000_000_000).step_by(7_777_777) {
        assert_eq!(human_size(bytes), reference(bytes), "{bytes}");
    }
}

#[test]
fn tres_grandes_tailles() {
    for bytes in [
        usize::MAX,
        usize::MAX - 1,
        (1usize << 53) + 1,
        (1usize << 60) + (1usize << 7),
        (1usize << 60) + (3usize << 7),
        123_456_789_012_345_678,
    ] {
        assert_eq!(human_size(bytes), reference(bytes), "{bytes}");
    }
}
