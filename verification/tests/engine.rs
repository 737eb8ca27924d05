use fulgur_wasi::engine::{
    apply_options, new_with_default_font, render_settings, BuilderSetting, EngineState, Engines,
};
use fulgur_wasi::options::{EngineOptions, MarginOption, PageSize, PageSizeOption};

#[test]
fn insert_and_remove_handle() {
    let mut engines = Engines::new();
    let h = engines.insert(EngineState::default());
    assert_ne!(h, 0);
    assert!(engines.with(h, |_| ()).is_some());
    engines.remove(h);
    assert!(engines.with(h, |_| ()).is_none());
}

#[test]
fn remove_zero_is_noop() {
    let mut engines = Engines::new();
    engines.remove(0);
    let h = engines.insert(EngineState::default());
    engines.remove(0);
    assert!(engines.with(h, |_| ()).is_some());
}

#[test]
fn with_mut_can_mutate() {
    let mut engines = Engines::new();
    let h = engines.insert(EngineState::default());
    engines.with_mut(h, |s| s.title = Some("hi".into())).unwrap();
    let title = engines.with(h, |s| s.title.clone()).unwrap();
    assert_eq!(title.as_deref(), Some("hi"));
    engines.remove(h);
}

#[test]
fn apply_options_partial_overrides() {
    let mut engines = Engines::new();
    let h = engines.insert(EngineState::default());
    engines.with_mut(h, |s| s.title = Some("kept".into())).unwrap();

    let opts = EngineOptions { landscape: Some(true), ..Default::default() };
    engines.with_mut(h, |s| apply_options(s, opts).unwrap()).unwrap();

    let (title, landscape) = engines.with(h, |s| (s.title.clone(), s.landscape)).unwrap();
    assert_eq!(title.as_deref(), Some("kept"));
    assert_eq!(landscape, Some(true));
    engines.remove(h);
}

#[test]
fn handles_count_from_one_and_are_reused_after_remove() {
    let mut engines = Engines::new();
    let a = engines.insert(EngineState::default());
    let b = engines.insert(EngineState::default());
    assert_eq!((a, b), (1, 2));
    engines.remove(a);
    assert!(engines.with(a, |_| ()).is_none());
    assert!(engines.with(b, |_| ()).is_some());
    assert_eq!(engines.insert(EngineState::default()), 1);
}

#[test]
fn unknown_and_zero_handles_name_no_engine() {
    let mut engines = Engines::new();
    assert!(engines.with(0, |_| ()).is_none());
    assert!(engines.with(7, |_| ()).is_none());
    assert!(engines.with_mut(7, |_| ()).is_none());
    engines.remove(7);
}

#[test]
fn unknown_page_size_leaves_state_untouched() {
    let mut state = EngineState::default();
    let opts = EngineOptions {
        page_size: Some(PageSizeOption::Named("B5".to_string())),
        title: Some("ignored".to_string()),
        ..Default::default()
    };
    let err = apply_options(&mut state, opts).unwrap_err();
    assert_eq!(err, "unknown page size: b5");
    assert_eq!(state.title, None);
    assert_eq!(state.page_size, None);
}

#[test]
fn options_are_sticky_and_override_field_by_field() {
    let mut state = EngineState::default();
    let first = EngineOptions {
        page_size: Some(PageSizeOption::Named("a3".to_string())),
        title: Some("one".to_string()),
        authors: Some(vec!["ann".to_string()]),
        ..Default::default()
    };
    apply_options(&mut state, first).unwrap();
    let second = EngineOptions {
        title: Some("two".to_string()),
        bookmarks: Some(false),
        ..Default::default()
    };
    apply_options(&mut state, second).unwrap();
    assert_eq!(state.page_size, Some(PageSize::A3));
    assert_eq!(state.title.as_deref(), Some("two"));
    assert_eq!(state.authors, vec!["ann".to_string()]);
    assert_eq!(state.bookmarks, Some(false));
    assert_eq!(state.lang, None);
}

#[test]
fn empty_options_change_nothing() {
    let mut state = EngineState::default();
    state.lang = Some("ja".to_string());
    apply_options(&mut state, EngineOptions::default()).unwrap();
    assert_eq!(state.lang.as_deref(), Some("ja"));
    assert_eq!(state.page_size, None);
}

#[test]
fn render_settings_follow_the_builder_order() {
    let mut state = EngineState::default();
    let opts = EngineOptions {
        bookmarks: Some(true),
        keywords: Some(vec!["k".to_string()]),
        authors: Some(Vec::new()),
        margin: Some(MarginOption::Pt { pt_bits: 36.0f32.to_bits() }),
        page_size: Some(PageSizeOption::Named("LETTER".to_string())),
        lang: Some("en".to_string()),
        ..Default::default()
    };
    apply_options(&mut state, opts).unwrap();
    let settings = render_settings(&state);
    assert_eq!(
        settings,
        vec![
            BuilderSetting::PageSize(PageSize::Letter),
            BuilderSetting::Margin(MarginOption::Pt { pt_bits: 36.0f32.to_bits() }),
            BuilderSetting::Keywords(vec!["k".to_string()]),
            BuilderSetting::Lang("en".to_string()),
            BuilderSetting::Bookmarks(true),
        ]
    );
}

#[test]
fn blank_state_needs_no_builder_call() {
    assert!(render_settings(&EngineState::default()).is_empty());
}

#[test]
fn new_engine_registers_the_given_font() {
    let state = new_with_default_font(vec![0, 1, 0, 0]);
    assert_eq!(state.assets.fonts, vec![vec![0u8, 1, 0, 0]]);
    assert_eq!(state.title, None);
}

#[test]
fn dropped_handles_are_reused_most_recent_first() {
    let mut engines = Engines::new();
    let a = engines.insert(EngineState::default());
    let b = engines.insert(EngineState::default());
    let c = engines.insert(EngineState::default());
    assert_eq!((a, b, c), (1, 2, 3));
    engines.remove(a);
    engines.remove(b);
    assert_eq!(engines.insert(EngineState::default()), 2);
    assert_eq!(engines.insert(EngineState::default()), 1);
    assert_eq!(engines.insert(EngineState::default()), 4);
}
