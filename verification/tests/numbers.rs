use azure_vm_info::numbers::{chars_of, is_float_literal};

#[test]
fn float_texts_agree_with_std() {
    let samples = [
        "1", "0", "0.5", "2.0", "12.", ".5", ".", "", "+", "-", "+1", "-1.5", "1e3", "1E3",
        "1e+3", "1e-3", "1e", "1e+", "e3", ".e3", "1.e3", ".5e3", "inf", "INF", "-inf", "+Inf",
        "infinity", "Infinity", "infinit", "nan", "NaN", "-nan", "+NAN", "nana", " 1", "1 ",
        "1,5", "1_000", "0x10", "1.2.3", "--1", "+-1", "1e3e3", "١", "ｉｎｆ", "1e٣",
        "00", "0.000", "1.5E-07", "inf1", "∞",
    ];
    for s in samples {
        assert_eq!(
            is_float_literal(s),
            s.parse::<f64>().is_ok(),
            "float text {:?}",
            s
        );
    }
}

#[test]
fn chars_of_keeps_order() {
    assert_eq!(chars_of("aé😀"), vec!['a', 'é', '😀']);
    assert_eq!(chars_of(""), Vec::<char>::new());
}
