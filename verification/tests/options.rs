use fulgur_wasi::options::{PageSize, PageSizeOption};

#[test]
fn rejects_unknown_page_size_name() {
    let opt = PageSizeOption::Named("foo".to_string());
    let err = opt.to_page_size().unwrap_err();
    assert!(err.contains("unknown page size"));
}

#[test]
fn unknown_page_size_message_names_lowercased_input() {
    let opt = PageSizeOption::Named("FooBar".to_string());
    assert_eq!(opt.to_page_size().unwrap_err(), "unknown page size: foobar");
}

#[test]
fn page_size_names_ignore_ascii_case() {
    assert_eq!(PageSizeOption::Named("A4".to_string()).to_page_size(), Ok(PageSize::A4));
    assert_eq!(PageSizeOption::Named("a3".to_string()).to_page_size(), Ok(PageSize::A3));
    assert_eq!(PageSizeOption::Named("LeTtEr".to_string()).to_page_size(), Ok(PageSize::Letter));
}

#[test]
fn custom_page_size_is_passed_through() {
    let w = 100.0f32.to_bits();
    let h = 150.0f32.to_bits();
    let opt = PageSizeOption::Custom { width_mm_bits: w, height_mm_bits: h };
    assert_eq!(
        opt.to_page_size(),
        Ok(PageSize::Custom { width_mm_bits: w, height_mm_bits: h })
    );
}
