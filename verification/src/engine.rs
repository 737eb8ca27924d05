//! Engine state and the table of live engines.
//!
//! Engines live in a `Slab` and are named to the host by an opaque `u32`
//! handle: the slab key plus one, so that handle 0 stays free as the
//! "error / no handle" sentinel. Each `EngineState` accumulates options and
//! assets; the renderer is only built from it at render time.
use crate::options::{ascii_lower, page_size_of, EngineOptions, MarginOption, PageSize, PageSizeOption};
use slab::Slab;
use vstd::prelude::*;

verus! {

/// Assets registered with an engine: the font files, as raw bytes, in the
/// order they were added. They are decoded when the renderer is built.
pub struct AssetBundle {
    pub fonts: Vec<Vec<u8>>,
}

impl AssetBundle {
    /// An empty bundle.
    pub fn new() -> (b: AssetBundle)
        ensures
            b.fonts@ == Seq::<Vec<u8>>::empty(),
    {
        AssetBundle { fonts: Vec::new() }
    }

    /// Registers one more font file.
    pub fn add_font_bytes(&mut self, bytes: Vec<u8>)
        ensures
            final(self).fonts@ == old(self).fonts@.push(bytes),
    {
        self.fonts.push(bytes);
    }
}

/// What one engine has accumulated: its options and its assets.
pub struct EngineState {
    pub assets: AssetBundle,
    pub page_size: Option<PageSize>,
    /// The margins as configured; they are turned into points when the
    /// renderer is built.
    pub margin: Option<MarginOption>,
    pub landscape: Option<bool>,
    pub title: Option<String>,
    pub authors: Vec<String>,
    pub description: Option<String>,
    pub keywords: Vec<String>,
    pub creator: Option<String>,
    pub producer: Option<String>,
    pub creation_date: Option<String>,
    pub lang: Option<String>,
    pub bookmarks: Option<bool>,
}

impl EngineState {
    /// Nothing configured and nothing registered.
    pub open spec fn is_blank(&self) -> bool {
        &&& self.assets.fonts@.len() == 0
        &&& self.page_size is None
        &&& self.margin is None
        &&& self.landscape is None
        &&& self.title is None
        &&& self.authors@.len() == 0
        &&& self.description is None
        &&& self.keywords@.len() == 0
        &&& self.creator is None
        &&& self.producer is None
        &&& self.creation_date is None
        &&& self.lang is None
        &&& self.bookmarks is None
    }
}

impl Default for EngineState {
    fn default() -> (s: EngineState)
        ensures
            s.is_blank(),
    {
        EngineState {
            assets: AssetBundle::new(),
            page_size: None,
            margin: None,
            landscape: None,
            title: None,
            authors: Vec::new(),
            description: None,
            keywords: Vec::new(),
            creator: None,
            producer: None,
            creation_date: None,
            lang: None,
            bookmarks: None,
        }
    }
}

/// A fresh engine with `font` as its one registered font.
pub fn new_with_default_font(font: Vec<u8>) -> (s: EngineState)
    ensures
        s.assets.fonts@ == seq![font],
        s.page_size is None,
        s.margin is None,
        s.landscape is None,
        s.title is None,
        s.authors@.len() == 0,
        s.description is None,
        s.keywords@.len() == 0,
        s.creator is None,
        s.producer is None,
        s.creation_date is None,
        s.lang is None,
        s.bookmarks is None,
{
    let mut state = EngineState::default();
    state.assets.add_font_bytes(font);
    proof {
        assert(state.assets.fonts@ =~= seq![font]);
    }
    state
}

/// `s` with the fields that `o` sets replaced, and its page size set to
/// `page_size`.
pub open spec fn merge_options(s: EngineState, o: EngineOptions, page_size: Option<PageSize>) -> EngineState {
    EngineState {
        assets: s.assets,
        page_size: page_size,
        margin: if o.margin is Some { o.margin } else { s.margin },
        landscape: if o.landscape is Some { o.landscape } else { s.landscape },
        title: if o.title is Some { o.title } else { s.title },
        authors: match o.authors {
            Some(a) => a,
            None => s.authors,
        },
        description: if o.description is Some { o.description } else { s.description },
        keywords: match o.keywords {
            Some(k) => k,
            None => s.keywords,
        },
        creator: if o.creator is Some { o.creator } else { s.creator },
        producer: if o.producer is Some { o.producer } else { s.producer },
        creation_date: if o.creation_date is Some { o.creation_date } else { s.creation_date },
        lang: if o.lang is Some { o.lang } else { s.lang },
        bookmarks: if o.bookmarks is Some { o.bookmarks } else { s.bookmarks },
    }
}

/// The state after applying `o` to `s`, or the message when the page size
/// that `o` names is unknown.
pub open spec fn options_applied(s: EngineState, o: EngineOptions) -> Result<EngineState, Seq<char>> {
    match o.page_size {
        Some(ps) => match page_size_of(ps) {
            Ok(p) => Ok(merge_options(s, o, Some(p))),
            Err(msg) => Err(msg),
        },
        None => Ok(merge_options(s, o, s.page_size)),
    }
}

/// `o` names a page size by a name that is no page size.
pub open spec fn page_size_unknown(o: EngineOptions) -> bool {
    o.page_size matches Some(PageSizeOption::Named(n)) && {
        let l = ascii_lower(n@);
        l != seq!['a', '4'] && l != seq!['a', '3'] && l != seq!['l', 'e', 't', 't', 'e', 'r']
    }
}

/// `new` is `old` configured with `o`: each field that `o` sets holds the
/// value `o` gives it (a named page size as the size it names, a custom one
/// as given), every field that `o` does not set keeps its value, and the
/// assets are untouched.
pub open spec fn fields_overridden(old: EngineState, o: EngineOptions, new: EngineState) -> bool {
    &&& new.assets == old.assets
    &&& match o.page_size {
        None => new.page_size == old.page_size,
        Some(PageSizeOption::Custom { width_mm_bits, height_mm_bits }) => new.page_size == Some(
            PageSize::Custom { width_mm_bits, height_mm_bits },
        ),
        Some(PageSizeOption::Named(n)) => {
            let l = ascii_lower(n@);
            &&& l == seq!['a', '4'] ==> new.page_size == Some(PageSize::A4)
            &&& l == seq!['a', '3'] ==> new.page_size == Some(PageSize::A3)
            &&& l == seq!['l', 'e', 't', 't', 'e', 'r'] ==> new.page_size == Some(PageSize::Letter)
        },
    }
    &&& (o.margin is Some ==> new.margin == o.margin) && (o.margin is None ==> new.margin
        == old.margin)
    &&& (o.landscape is Some ==> new.landscape == o.landscape) && (o.landscape is None
        ==> new.landscape == old.landscape)
    &&& (o.title is Some ==> new.title == o.title) && (o.title is None ==> new.title == old.title)
    &&& (o.authors matches Some(a) ==> new.authors == a) && (o.authors is None ==> new.authors
        == old.authors)
    &&& (o.description is Some ==> new.description == o.description) && (o.description is None
        ==> new.description == old.description)
    &&& (o.keywords matches Some(k) ==> new.keywords == k) && (o.keywords is None
        ==> new.keywords == old.keywords)
    &&& (o.creator is Some ==> new.creator == o.creator) && (o.creator is None ==> new.creator
        == old.creator)
    &&& (o.producer is Some ==> new.producer == o.producer) && (o.producer is None
        ==> new.producer == old.producer)
    &&& (o.creation_date is Some ==> new.creation_date == o.creation_date) && (o.creation_date
        is None ==> new.creation_date == old.creation_date)
    &&& (o.lang is Some ==> new.lang == o.lang) && (o.lang is None ==> new.lang == old.lang)
    &&& (o.bookmarks is Some ==> new.bookmarks == o.bookmarks) && (o.bookmarks is None
        ==> new.bookmarks == old.bookmarks)
}

/// Overrides the fields of `state` that `opts` sets. An unknown page size
/// is an error, and then `state` is left as it was.
pub fn apply_options(state: &mut EngineState, opts: EngineOptions) -> (r: Result<(), String>)
    ensures
        match options_applied(*old(state), opts) {
            Ok(s) => r is Ok && *final(state) == s,
            Err(msg) => r matches Err(e) && e@ == msg && *final(state) == *old(state),
        },
        r is Err <==> page_size_unknown(opts),
        r is Ok ==> fields_overridden(*old(state), opts, *final(state)),
{
    let EngineOptions {
        page_size,
        margin,
        landscape,
        title,
        authors,
        description,
        keywords,
        creator,
        producer,
        creation_date,
        lang,
        bookmarks,
    } = opts;
    if let Some(ps) = page_size {
        match ps.to_page_size() {
            Ok(p) => {
                state.page_size = Some(p);
            },
            Err(e) => {
                return Err(e);
            },
        }
    }
    if let Some(m) = margin {
        state.margin = Some(m);
    }
    if let Some(l) = landscape {
        state.landscape = Some(l);
    }
    if let Some(t) = title {
        state.title = Some(t);
    }
    if let Some(a) = authors {
        state.authors = a;
    }
    if let Some(d) = description {
        state.description = Some(d);
    }
    if let Some(k) = keywords {
        state.keywords = k;
    }
    if let Some(c) = creator {
        state.creator = Some(c);
    }
    if let Some(p) = producer {
        state.producer = Some(p);
    }
    if let Some(cd) = creation_date {
        state.creation_date = Some(cd);
    }
    if let Some(l) = lang {
        state.lang = Some(l);
    }
    if let Some(b) = bookmarks {
        state.bookmarks = Some(b);
    }
    Ok(())
}

/// One call on the renderer's builder, in the order `render_settings`
/// lists them.
#[derive(Debug, PartialEq)]
pub enum BuilderSetting {
    PageSize(PageSize),
    Margin(MarginOption),
    Landscape(bool),
    Title(String),
    Authors(Vec<String>),
    Description(String),
    Keywords(Vec<String>),
    Creator(String),
    Producer(String),
    CreationDate(String),
    Lang(String),
    Bookmarks(bool),
}

/// The builder calls for the page size, margin,
/// landscape and title: one for each option that is
/// set (a list only when it is not empty).
pub open spec fn settings_layout(s: EngineState) -> Seq<BuilderSetting> {
    (match s.page_size { Some(v) => seq![BuilderSetting::PageSize(v)], None => Seq::empty() })
        + (match s.margin { Some(v) => seq![BuilderSetting::Margin(v)], None => Seq::empty() })
        + (match s.landscape { Some(v) => seq![BuilderSetting::Landscape(v)], None => Seq::empty() })
        + (match s.title { Some(v) => seq![BuilderSetting::Title(v)], None => Seq::empty() })
}

/// The builder calls for the authors,
/// description, keywords and creator: one for each option that is
/// set (a list only when it is not empty).
pub open spec fn settings_people(s: EngineState) -> Seq<BuilderSetting> {
    (if s.authors@.len() > 0 { seq![BuilderSetting::Authors(s.authors)] } else { Seq::empty() })
        + (match s.description { Some(v) => seq![BuilderSetting::Description(v)], None => Seq::empty() })
        + (if s.keywords@.len() > 0 { seq![BuilderSetting::Keywords(s.keywords)] } else { Seq::empty() })
        + (match s.creator { Some(v) => seq![BuilderSetting::Creator(v)], None => Seq::empty() })
}

/// The builder calls for the producer,
/// creation date, language and bookmarks: one for each option that is
/// set (a list only when it is not empty).
pub open spec fn settings_metadata(s: EngineState) -> Seq<BuilderSetting> {
    (match s.producer { Some(v) => seq![BuilderSetting::Producer(v)], None => Seq::empty() })
        + (match s.creation_date { Some(v) => seq![BuilderSetting::CreationDate(v)], None => Seq::empty() })
        + (match s.lang { Some(v) => seq![BuilderSetting::Lang(v)], None => Seq::empty() })
        + (match s.bookmarks { Some(v) => seq![BuilderSetting::Bookmarks(v)], None => Seq::empty() })
}

/// The builder calls for `s`: each option that is set, and the author and
/// keyword lists when they are not empty, in this order: page size, margin,
/// landscape, title, authors, description, keywords, creator, producer,
/// creation date, language, bookmarks.
pub open spec fn settings_of(s: EngineState) -> Seq<BuilderSetting> {
    settings_layout(s) + settings_people(s) + settings_metadata(s)
}

/// Two settings say the same: lists are compared by their elements.
pub open spec fn same_setting(a: BuilderSetting, b: BuilderSetting) -> bool {
    match (a, b) {
        (BuilderSetting::Authors(x), BuilderSetting::Authors(y)) => x@ == y@,
        (BuilderSetting::Keywords(x), BuilderSetting::Keywords(y)) => x@ == y@,
        _ => a == b,
    }
}

/// Two lists of settings say the same, item by item.
pub open spec fn same_settings(a: Seq<BuilderSetting>, b: Seq<BuilderSetting>) -> bool {
    a.len() == b.len() && forall|i: int| 0 <= i < a.len() ==> same_setting(#[trigger] a[i], b[i])
}

proof fn lemma_same_settings_concat(a: Seq<BuilderSetting>, b: Seq<BuilderSetting>, c: Seq<BuilderSetting>, d: Seq<BuilderSetting>)
    requires
        same_settings(a, b),
        same_settings(c, d),
    ensures
        same_settings(a + c, b + d),
{
    assert forall|i: int| 0 <= i < (a + c).len() implies same_setting(#[trigger] (a + c)[i], (b + d)[i]) by {
        if i >= a.len() {
            assert((a + c)[i] == c[i - a.len()]);
            assert((b + d)[i] == d[i - a.len()]);
        }
    }
}

/// The builder calls for the page size, margin,
/// landscape and title.
fn settings_layout_exec(state: &EngineState) -> (r: Vec<BuilderSetting>)
    ensures
        same_settings(r@, settings_layout(*state)),
{
    let mut out: Vec<BuilderSetting> = Vec::new();
    if let Some(v) = state.page_size {
        out.push(BuilderSetting::PageSize(v));
    }
    if let Some(v) = state.margin {
        out.push(BuilderSetting::Margin(v));
    }
    if let Some(v) = state.landscape {
        out.push(BuilderSetting::Landscape(v));
    }
    if let Some(v) = &state.title {
        out.push(BuilderSetting::Title(v.clone()));
    }
    assert(same_settings(out@, settings_layout(*state)));
    out
}

/// The builder calls for the authors,
/// description, keywords and creator.
fn settings_people_exec(state: &EngineState) -> (r: Vec<BuilderSetting>)
    ensures
        same_settings(r@, settings_people(*state)),
{
    let mut out: Vec<BuilderSetting> = Vec::new();
    if state.authors.len() > 0 {
        let v = state.authors.clone();
        assert(v@ =~= state.authors@);
        out.push(BuilderSetting::Authors(v));
    }
    if let Some(v) = &state.description {
        out.push(BuilderSetting::Description(v.clone()));
    }
    if state.keywords.len() > 0 {
        let v = state.keywords.clone();
        assert(v@ =~= state.keywords@);
        out.push(BuilderSetting::Keywords(v));
    }
    if let Some(v) = &state.creator {
        out.push(BuilderSetting::Creator(v.clone()));
    }
    assert(same_settings(out@, settings_people(*state)));
    out
}

/// The builder calls for the producer,
/// creation date, language and bookmarks.
fn settings_metadata_exec(state: &EngineState) -> (r: Vec<BuilderSetting>)
    ensures
        same_settings(r@, settings_metadata(*state)),
{
    let mut out: Vec<BuilderSetting> = Vec::new();
    if let Some(v) = &state.producer {
        out.push(BuilderSetting::Producer(v.clone()));
    }
    if let Some(v) = &state.creation_date {
        out.push(BuilderSetting::CreationDate(v.clone()));
    }
    if let Some(v) = &state.lang {
        out.push(BuilderSetting::Lang(v.clone()));
    }
    if let Some(v) = state.bookmarks {
        out.push(BuilderSetting::Bookmarks(v));
    }
    assert(same_settings(out@, settings_metadata(*state)));
    out
}


/// Where a builder call stands in a render: page size, margin, landscape,
/// title, authors, description, keywords, creator, producer, creation date,
/// language, bookmarks.
pub open spec fn setting_rank(b: BuilderSetting) -> int {
    match b {
        BuilderSetting::PageSize(_) => 0,
        BuilderSetting::Margin(_) => 1,
        BuilderSetting::Landscape(_) => 2,
        BuilderSetting::Title(_) => 3,
        BuilderSetting::Authors(_) => 4,
        BuilderSetting::Description(_) => 5,
        BuilderSetting::Keywords(_) => 6,
        BuilderSetting::Creator(_) => 7,
        BuilderSetting::Producer(_) => 8,
        BuilderSetting::CreationDate(_) => 9,
        BuilderSetting::Lang(_) => 10,
        BuilderSetting::Bookmarks(_) => 11,
    }
}

/// The builder call carries the value that `s` holds for its option.
pub open spec fn setting_agrees(b: BuilderSetting, s: EngineState) -> bool {
    match b {
        BuilderSetting::PageSize(p) => s.page_size == Some(p),
        BuilderSetting::Margin(m) => s.margin == Some(m),
        BuilderSetting::Landscape(l) => s.landscape == Some(l),
        BuilderSetting::Title(t) => s.title == Some(t),
        BuilderSetting::Authors(a) => s.authors@.len() > 0 && a@ == s.authors@,
        BuilderSetting::Description(d) => s.description == Some(d),
        BuilderSetting::Keywords(k) => s.keywords@.len() > 0 && k@ == s.keywords@,
        BuilderSetting::Creator(c) => s.creator == Some(c),
        BuilderSetting::Producer(p) => s.producer == Some(p),
        BuilderSetting::CreationDate(d) => s.creation_date == Some(d),
        BuilderSetting::Lang(l) => s.lang == Some(l),
        BuilderSetting::Bookmarks(b) => s.bookmarks == Some(b),
    }
}

/// `s` sets the option of rank `k` (a list counts when it is not empty).
pub open spec fn option_set(s: EngineState, k: int) -> bool {
    if k == 0 {
        s.page_size is Some
    } else if k == 1 {
        s.margin is Some
    } else if k == 2 {
        s.landscape is Some
    } else if k == 3 {
        s.title is Some
    } else if k == 4 {
        s.authors@.len() > 0
    } else if k == 5 {
        s.description is Some
    } else if k == 6 {
        s.keywords@.len() > 0
    } else if k == 7 {
        s.creator is Some
    } else if k == 8 {
        s.producer is Some
    } else if k == 9 {
        s.creation_date is Some
    } else if k == 10 {
        s.lang is Some
    } else if k == 11 {
        s.bookmarks is Some
    } else {
        false
    }
}

/// `calls` are the builder calls for the options of rank below `upto` that
/// `s` sets: each call carries its option's value, they come in rank order
/// with no rank twice, and every such option that is set has its call.
#[verifier::opaque]
pub open spec fn calls_for_upto(calls: Seq<BuilderSetting>, s: EngineState, upto: int) -> bool {
    &&& forall|i: int| 0 <= i < calls.len() ==> setting_agrees(#[trigger] calls[i], s)
        && setting_rank(calls[i]) < upto
    &&& forall|i: int, j: int|
        0 <= i < j < calls.len() ==> setting_rank(#[trigger] calls[i]) < setting_rank(
            #[trigger] calls[j],
        )
    &&& forall|k: int|
        0 <= k < upto && #[trigger] option_set(s, k) ==> exists|i: int|
            0 <= i < calls.len() && setting_rank(#[trigger] calls[i]) == k
}

/// `calls` are exactly the builder calls for what `s` sets: one call per
/// set option, carrying its value, in rank order, and none for an option
/// that is not set.
pub open spec fn calls_for(calls: Seq<BuilderSetting>, s: EngineState) -> bool {
    calls_for_upto(calls, s, 12)
}

proof fn lemma_calls_extend(a: Seq<BuilderSetting>, piece: Seq<BuilderSetting>, s: EngineState, k: int)
    requires
        calls_for_upto(a, s, k),
        0 <= k,
        piece.len() <= 1,
        piece.len() == 1 ==> setting_rank(piece[0]) == k && setting_agrees(piece[0], s),
        option_set(s, k) <==> piece.len() == 1,
    ensures
        calls_for_upto(a + piece, s, k + 1),
{
    reveal(calls_for_upto);
    let c = a + piece;
    assert forall|i: int| 0 <= i < c.len() implies setting_agrees(#[trigger] c[i], s)
        && setting_rank(c[i]) < k + 1 by {
        if i < a.len() {
            assert(c[i] == a[i]);
        }
    }
    assert forall|i: int, j: int| 0 <= i < j < c.len() implies setting_rank(#[trigger] c[i])
        < setting_rank(#[trigger] c[j]) by {
        assert(c[i] == a[i]);
        if j < a.len() {
            assert(c[j] == a[j]);
        }
    }
    assert forall|m: int| 0 <= m < k + 1 && #[trigger] option_set(s, m) implies exists|i: int|
        0 <= i < c.len() && setting_rank(#[trigger] c[i]) == m by {
        if m < k {
            let i = choose|i: int| 0 <= i < a.len() && setting_rank(#[trigger] a[i]) == m;
            assert(c[i] == a[i]);
        } else {
            assert(c[a.len() as int] == piece[0]);
        }
    }
}

#[verifier::spinoff_prover]
proof fn lemma_settings_layout_extend(a: Seq<BuilderSetting>, s: EngineState)
    requires
        calls_for_upto(a, s, 0),
    ensures
        calls_for_upto(a + settings_layout(s), s, 4),
{
    let p0 = match s.page_size { Some(v) => seq![BuilderSetting::PageSize(v)], None => Seq::empty() };
    let p1 = match s.margin { Some(v) => seq![BuilderSetting::Margin(v)], None => Seq::empty() };
    let p2 = match s.landscape { Some(v) => seq![BuilderSetting::Landscape(v)], None => Seq::empty() };
    let p3 = match s.title { Some(v) => seq![BuilderSetting::Title(v)], None => Seq::empty() };
    lemma_calls_extend(a, p0, s, 0);
    lemma_calls_extend(a + p0, p1, s, 1);
    lemma_calls_extend(a + p0 + p1, p2, s, 2);
    lemma_calls_extend(a + p0 + p1 + p2, p3, s, 3);
    assert(a + settings_layout(s) =~= a + p0 + p1 + p2 + p3);
}

#[verifier::spinoff_prover]
proof fn lemma_settings_people_extend(a: Seq<BuilderSetting>, s: EngineState)
    requires
        calls_for_upto(a, s, 4),
    ensures
        calls_for_upto(a + settings_people(s), s, 8),
{
    let p0 = if s.authors@.len() > 0 { seq![BuilderSetting::Authors(s.authors)] } else { Seq::empty() };
    let p1 = match s.description { Some(v) => seq![BuilderSetting::Description(v)], None => Seq::empty() };
    let p2 = if s.keywords@.len() > 0 { seq![BuilderSetting::Keywords(s.keywords)] } else { Seq::empty() };
    let p3 = match s.creator { Some(v) => seq![BuilderSetting::Creator(v)], None => Seq::empty() };
    lemma_calls_extend(a, p0, s, 4);
    lemma_calls_extend(a + p0, p1, s, 5);
    lemma_calls_extend(a + p0 + p1, p2, s, 6);
    lemma_calls_extend(a + p0 + p1 + p2, p3, s, 7);
    assert(a + settings_people(s) =~= a + p0 + p1 + p2 + p3);
}

#[verifier::spinoff_prover]
proof fn lemma_settings_metadata_extend(a: Seq<BuilderSetting>, s: EngineState)
    requires
        calls_for_upto(a, s, 8),
    ensures
        calls_for_upto(a + settings_metadata(s), s, 12),
{
    let p0 = match s.producer { Some(v) => seq![BuilderSetting::Producer(v)], None => Seq::empty() };
    let p1 = match s.creation_date { Some(v) => seq![BuilderSetting::CreationDate(v)], None => Seq::empty() };
    let p2 = match s.lang { Some(v) => seq![BuilderSetting::Lang(v)], None => Seq::empty() };
    let p3 = match s.bookmarks { Some(v) => seq![BuilderSetting::Bookmarks(v)], None => Seq::empty() };
    lemma_calls_extend(a, p0, s, 8);
    lemma_calls_extend(a + p0, p1, s, 9);
    lemma_calls_extend(a + p0 + p1, p2, s, 10);
    lemma_calls_extend(a + p0 + p1 + p2, p3, s, 11);
    assert(a + settings_metadata(s) =~= a + p0 + p1 + p2 + p3);
}

/// A render makes one builder call for each option the engine sets, with
/// that option's value, in the builder's order, and none for an option it
/// does not set.
pub proof fn lemma_settings_of_are_the_calls_for(s: EngineState)
    ensures
        calls_for(settings_of(s), s),
{
    let e: Seq<BuilderSetting> = Seq::empty();
    assert(calls_for_upto(e, s, 0)) by {
        reveal(calls_for_upto);
    }
    lemma_settings_layout_extend(e, s);
    lemma_settings_people_extend(e + settings_layout(s), s);
    lemma_settings_metadata_extend(e + settings_layout(s) + settings_people(s), s);
    assert(e + settings_layout(s) + settings_people(s) + settings_metadata(s) =~= settings_of(s));
}

/// Lists that say the same, item by item, are the calls for the same state.
proof fn lemma_calls_for_same(a: Seq<BuilderSetting>, b: Seq<BuilderSetting>, s: EngineState)
    requires
        same_settings(a, b),
        calls_for(b, s),
    ensures
        calls_for(a, s),
{
    reveal(calls_for_upto);
    assert forall|i: int| 0 <= i < a.len() implies setting_agrees(#[trigger] a[i], s)
        && setting_rank(a[i]) < 12 by {
        assert(same_setting(a[i], b[i]));
        assert(setting_agrees(b[i], s));
    }
    assert forall|i: int, j: int| 0 <= i < j < a.len() implies setting_rank(#[trigger] a[i])
        < setting_rank(#[trigger] a[j]) by {
        assert(same_setting(a[i], b[i]) && same_setting(a[j], b[j]));
        assert(setting_rank(b[i]) < setting_rank(b[j]));
    }
    assert forall|k: int| 0 <= k < 12 && #[trigger] option_set(s, k) implies exists|i: int|
        0 <= i < a.len() && setting_rank(#[trigger] a[i]) == k by {
        let i = choose|i: int| 0 <= i < b.len() && setting_rank(#[trigger] b[i]) == k;
        assert(same_setting(a[i], b[i]));
    }
}

/// The builder calls that rendering `state` makes, after handing over the
/// assets: one for each option that `state` sets, with its value, in the
/// builder's order (see `settings_of` and `calls_for`).
pub fn render_settings(state: &EngineState) -> (r: Vec<BuilderSetting>)
    ensures
        same_settings(r@, settings_of(*state)),
        calls_for(r@, *state),
{
    let mut out = settings_layout_exec(state);
    let mut people = settings_people_exec(state);
    let mut metadata = settings_metadata_exec(state);
    let ghost (a, b, c) = (out@, people@, metadata@);
    out.append(&mut people);
    out.append(&mut metadata);
    proof {
        lemma_same_settings_concat(a, settings_layout(*state), b, settings_people(*state));
        lemma_same_settings_concat(a + b, settings_layout(*state) + settings_people(*state), c, settings_metadata(*state));
        lemma_settings_of_are_the_calls_for(*state);
        lemma_calls_for_same(out@, settings_of(*state), *state);
    }
    out
}

/// Declares `slab::Slab` to the verifier; what it holds is read through
/// `slab_entries` and `slab_vacancies`.
#[verifier::external_type_specification]
#[verifier::external_body]
#[verifier::reject_recursive_types(T)]
pub struct ExSlab<T>(Slab<T>);

/// The occupied entries of a slab of engines, by key.
pub uninterp spec fn slab_entries(slab: Slab<EngineState>) -> Map<usize, EngineState>;

/// The keys that insertions take, in the order they take them: the slab's
/// next key (`Slab::vacant_key`), then the key each vacant slot links to, in
/// turn, ending with the number of slots (occupied or vacant) that the slab
/// has grown to.
pub uninterp spec fn slab_vacancies(slab: Slab<EngineState>) -> Seq<usize>;

/// What every slab keeps: the chain of vacancies ends at the slot count, the
/// keys before that end are distinct vacant slots, and occupied keys lie
/// below the slot count.
pub open spec fn slab_consistent(slab: Slab<EngineState>) -> bool {
    let v = slab_vacancies(slab);
    &&& v.len() >= 1
    &&& v.no_duplicates()
    &&& forall|i: int|
        0 <= i < v.len() - 1 ==> #[trigger] v[i] < v.last() && !slab_entries(slab).contains_key(
            v[i],
        )
    &&& forall|k: usize| #[trigger] slab_entries(slab).contains_key(k) ==> k < v.last()
}

/// Calls `Slab::with_capacity`: an empty slab with no slot yet, whose first
/// insertion takes key 0.
#[verifier::external_body]
fn slab_with_capacity(capacity: usize) -> (fresh: Slab<EngineState>)
    ensures
        slab_entries(fresh).dom() == Set::<usize>::empty(),
        slab_vacancies(fresh) == seq![0usize],
{
    Slab::with_capacity(capacity)
}

/// Calls `Slab::insert`: stores `val` under the next key and returns that
/// key. Filling a vacated slot makes the key it linked to the next one;
/// inserting past the last slot adds a slot and makes the key past it the
/// next one (the slot vector cannot grow to `usize::MAX` slots: it fails
/// before).
#[verifier::external_body]
fn slab_insert(slab: &mut Slab<EngineState>, val: EngineState) -> (key: usize)
    requires
        slab_consistent(*old(slab)),
    ensures
        key == slab_vacancies(*old(slab))[0],
        slab_entries(*final(slab)) == slab_entries(*old(slab)).insert(key, val),
        slab_vacancies(*old(slab)).len() == 1 ==> key < usize::MAX && slab_vacancies(*final(slab))
            == seq![(key + 1) as usize],
        slab_vacancies(*old(slab)).len() > 1 ==> slab_vacancies(*final(slab)) == slab_vacancies(
            *old(slab),
        ).drop_first(),
{
    slab.insert(val)
}

/// Calls `Slab::contains`: whether `key` is occupied.
#[verifier::external_body]
fn slab_contains(slab: &Slab<EngineState>, key: usize) -> (b: bool)
    ensures
        b == slab_entries(*slab).contains_key(key),
{
    slab.contains(key)
}

/// Calls `Slab::remove` on an occupied key: takes the value out and makes
/// the key vacant and the next one to be taken.
#[verifier::external_body]
fn slab_remove(slab: &mut Slab<EngineState>, key: usize) -> (val: EngineState)
    requires
        slab_consistent(*old(slab)),
        slab_entries(*old(slab)).contains_key(key),
    ensures
        val == slab_entries(*old(slab))[key],
        slab_entries(*final(slab)) == slab_entries(*old(slab)).remove(key),
        slab_vacancies(*final(slab)) == seq![key] + slab_vacancies(*old(slab)),
{
    slab.remove(key)
}

/// Calls `Slab::get`: the value under `key`, if the key is occupied.
#[verifier::external_body]
fn slab_get(slab: &Slab<EngineState>, key: usize) -> (r: Option<&EngineState>)
    ensures
        r == if slab_entries(*slab).contains_key(key) {
            Some(&slab_entries(*slab)[key])
        } else {
            None
        },
{
    slab.get(key)
}

/// Calls `Slab::get_mut`: a mutable reference to the value under `key`, if
/// the key is occupied; what is written through it is what the slab holds
/// under that key afterwards, and no key changes state.
#[verifier::external_body]
fn slab_get_mut(slab: &mut Slab<EngineState>, key: usize) -> (r: Option<&mut EngineState>)
    ensures
        match r {
            Some(v) => {
                &&& slab_entries(*old(slab)).contains_key(key)
                &&& *v == slab_entries(*old(slab))[key]
                &&& slab_entries(*final(slab)) == slab_entries(*old(slab)).insert(key, *final(v))
                &&& slab_vacancies(*final(slab)) == slab_vacancies(*old(slab))
            },
            None => {
                &&& !slab_entries(*old(slab)).contains_key(key)
                &&& slab_entries(*final(slab)) == slab_entries(*old(slab))
                &&& slab_vacancies(*final(slab)) == slab_vacancies(*old(slab))
            },
        },
{
    slab.get_mut(key)
}

proof fn lemma_insert_consistent(pre: Slab<EngineState>, post: Slab<EngineState>, key: usize, val: EngineState)
    requires
        slab_consistent(pre),
        key == slab_vacancies(pre)[0],
        slab_entries(post) == slab_entries(pre).insert(key, val),
        slab_vacancies(pre).len() == 1 ==> key < usize::MAX && slab_vacancies(post) == seq![
            (key + 1) as usize,
        ],
        slab_vacancies(pre).len() > 1 ==> slab_vacancies(post) == slab_vacancies(pre).drop_first(),
    ensures
        slab_consistent(post),
{
    let v = slab_vacancies(pre);
    let w = slab_vacancies(post);
    if v.len() == 1 {
        assert(w.no_duplicates());
        assert forall|k: usize| #[trigger] slab_entries(post).contains_key(k) implies k < w.last() by {
            if k != key {
                assert(slab_entries(pre).contains_key(k));
            }
        }
    } else {
        assert(v[0] < v.last() && !slab_entries(pre).contains_key(v[0]));
        assert(w.last() == v.last());
        assert forall|i: int| 0 <= i < w.len() - 1 implies #[trigger] w[i] < w.last()
            && !slab_entries(post).contains_key(w[i]) by {
            assert(w[i] == v[i + 1]);
            assert(v[i + 1] < v.last() && !slab_entries(pre).contains_key(v[i + 1]));
            assert(v[i + 1] != v[0]);
        }
        assert forall|k: usize| #[trigger] slab_entries(post).contains_key(k) implies k < w.last() by {
            if k != key {
                assert(slab_entries(pre).contains_key(k));
            }
        }
        assert(w.no_duplicates()) by {
            assert forall|i: int, j: int| 0 <= i < w.len() && 0 <= j < w.len() && i != j implies w[i]
                != w[j] by {
                assert(w[i] == v[i + 1] && w[j] == v[j + 1]);
            }
        }
    }
}

proof fn lemma_remove_consistent(pre: Slab<EngineState>, post: Slab<EngineState>, key: usize)
    requires
        slab_consistent(pre),
        slab_entries(pre).contains_key(key),
        slab_entries(post) == slab_entries(pre).remove(key),
        slab_vacancies(post) == seq![key] + slab_vacancies(pre),
    ensures
        slab_consistent(post),
{
    let v = slab_vacancies(pre);
    let w = slab_vacancies(post);
    assert(key < v.last());
    assert(w.last() == v.last());
    assert forall|i: int| 0 <= i < v.len() implies #[trigger] v[i] != key by {
        if i < v.len() - 1 {
            assert(!slab_entries(pre).contains_key(v[i]));
        }
    }
    assert forall|i: int| 0 <= i < w.len() - 1 implies #[trigger] w[i] < w.last()
        && !slab_entries(post).contains_key(w[i]) by {
        if i > 0 {
            assert(w[i] == v[i - 1]);
            assert(v[i - 1] < v.last() && !slab_entries(pre).contains_key(v[i - 1]));
        }
    }
    assert forall|k: usize| #[trigger] slab_entries(post).contains_key(k) implies k < w.last() by {
        assert(slab_entries(pre).contains_key(k));
    }
    assert(w.no_duplicates()) by {
        assert forall|i: int, j: int| 0 <= i < w.len() && 0 <= j < w.len() && i != j implies w[i]
            != w[j] by {
            if i > 0 && j > 0 {
                assert(w[i] == v[i - 1] && w[j] == v[j - 1]);
            } else if i == 0 {
                assert(w[j] == v[j - 1]);
            } else {
                assert(w[i] == v[i - 1]);
            }
        }
    }
}

/// The slab key that a non-zero handle stands for.
pub open spec fn handle_key(handle: u32) -> usize {
    (handle - 1) as usize
}

/// The handle under which the engine stored at `key` is given out.
/// (the key cut to 32 bits, plus one, wrapping to 0).
pub open spec fn key_handle(key: usize) -> u32 {
    if key as u32 == u32::MAX {
        0
    } else {
        ((key as u32) + 1) as u32
    }
}

/// The engine that `handle` names in `entries`, if any; handle 0 names none.
pub open spec fn lookup(entries: Map<usize, EngineState>, handle: u32) -> Option<EngineState> {
    if handle != 0 && entries.contains_key(handle_key(handle)) {
        Some(entries[handle_key(handle)])
    } else {
        None
    }
}

/// The table of live engines.
pub struct Engines {
    slab: Slab<EngineState>,
}

impl Engines {
    #[verifier::type_invariant]
    spec fn consistent(&self) -> bool {
        slab_consistent(self.slab)
    }

    /// The live engines, by slab key.
    pub closed spec fn entries(&self) -> Map<usize, EngineState> {
        slab_entries(self.slab)
    }

    /// The slab keys that stored engines take, in the order they take them:
    /// the keys of dropped engines, most recently dropped first, then the
    /// number of slots the table has grown to.
    pub closed spec fn vacancies(&self) -> Seq<usize> {
        slab_vacancies(self.slab)
    }

    /// The slab key that the next stored engine takes.
    pub open spec fn next_key(&self) -> usize {
        self.vacancies()[0]
    }

    /// Moves the slab out, leaving an empty one in its place.
    fn take_slab(&mut self) -> (slab: Slab<EngineState>)
        ensures
            slab == old(self).slab,
            slab_consistent(slab),
    {
        proof {
            use_type_invariant(&*self);
        }
        let mut slab = slab_with_capacity(0);
        std::mem::swap(&mut slab, &mut self.slab);
        slab
    }

    /// An empty table with room for four engines.
    pub fn new() -> (e: Engines)
        ensures
            e.entries().dom() == Set::<usize>::empty(),
            e.vacancies() == seq![0usize],
    {
        Engines { slab: slab_with_capacity(4) }
    }

    /// Stores a new engine under the next key and returns its handle: the
    /// key plus one, wrapping in `u32`.
    pub fn insert(&mut self, state: EngineState) -> (handle: u32)
        ensures
            !old(self).entries().contains_key(old(self).next_key()),
            final(self).entries() == old(self).entries().insert(old(self).next_key(), state),
            handle == key_handle(old(self).next_key()),
            old(self).vacancies().len() == 1 ==> final(self).vacancies() == seq![
                (old(self).next_key() + 1) as usize,
            ],
            old(self).vacancies().len() > 1 ==> final(self).vacancies() == old(
                self,
            ).vacancies().drop_first(),
    {
        proof {
            use_type_invariant(&*self);
        }
        let mut slab = self.take_slab();
        let ghost pre = slab;
        let key = slab_insert(&mut slab, state);
        proof {
            lemma_insert_consistent(pre, slab, key, state);
        }
        self.slab = slab;
        let handle = (key as u32).wrapping_add(1);
        assert(handle == key_handle(key));
        handle
    }

    /// Drops the engine that `handle` names, and makes its key the next one
    /// to be taken; an unknown handle, and handle 0, drop nothing.
    pub fn remove(&mut self, handle: u32)
        ensures
            handle == 0 ==> final(self).entries() == old(self).entries(),
            handle != 0 ==> final(self).entries() == old(self).entries().remove(
                handle_key(handle),
            ),
            lookup(old(self).entries(), handle) is Some ==> final(self).vacancies() == seq![
                handle_key(handle),
            ] + old(self).vacancies(),
            lookup(old(self).entries(), handle) is None ==> final(self).vacancies() == old(
                self,
            ).vacancies(),
    {
        proof {
            use_type_invariant(&*self);
        }
        if handle == 0 {
            return;
        }
        let key = (handle - 1) as usize;
        if slab_contains(&self.slab, key) {
            let mut slab = self.take_slab();
            let ghost pre = slab;
            slab_remove(&mut slab, key);
            proof {
                lemma_remove_consistent(pre, slab, key);
            }
            self.slab = slab;
        } else {
            assert(old(self).entries().remove(key) =~= old(self).entries());
        }
    }

    /// Runs `f` on the engine that `handle` names and returns its result;
    /// `None` when the handle names no engine.
    pub fn with_mut<R, F: FnOnce(&mut EngineState) -> R>(&mut self, handle: u32, f: F) -> (r: Option<R>)
        requires
            lookup(old(self).entries(), handle) matches Some(s) ==> forall|x: &mut EngineState|
                *x == s ==> f.requires((x,)),
        ensures
            final(self).vacancies() == old(self).vacancies(),
            lookup(old(self).entries(), handle) is None ==> r is None && final(self).entries()
                == old(self).entries(),
            lookup(old(self).entries(), handle) matches Some(s) ==> (r matches Some(v) && exists|
                x: &mut EngineState,
            |
                {
                    &&& *x == s
                    &&& f.ensures((x,), v)
                    &&& final(self).entries() == old(self).entries().insert(
                        handle_key(handle),
                        *final(x),
                    )
                }),
    {
        proof {
            use_type_invariant(&*self);
        }
        if handle == 0 {
            return None;
        }
        let key = (handle - 1) as usize;
        let mut slab = self.take_slab();
        let r = match slab_get_mut(&mut slab, key) {
            Some(state) => Some(f(state)),
            None => None,
        };
        self.slab = slab;
        r
    }

    /// Runs `f` on the engine that `handle` names and returns its result;
    /// `None` when the handle names no engine.
    pub fn with<R, F: FnOnce(&EngineState) -> R>(&self, handle: u32, f: F) -> (r: Option<R>)
        requires
            lookup(self.entries(), handle) matches Some(s) ==> f.requires((&s,)),
        ensures
            lookup(self.entries(), handle) is None ==> r is None,
            lookup(self.entries(), handle) matches Some(s) ==> (r matches Some(v) && f.ensures(
                (&s,),
                v,
            )),
    {
        if handle == 0 {
            return None;
        }
        let key = (handle - 1) as usize;
        match slab_get(&self.slab, key) {
            Some(state) => Some(f(state)),
            None => None,
        }
    }
}

} // verus!

verus! {

/// The handle that `insert` gives out names the stored engine, and is not
/// 0, as long as the slab key is below `u32::MAX`.
pub proof fn lemma_insert_then_lookup(entries: Map<usize, EngineState>, key: usize, state: EngineState)
    requires
        !entries.contains_key(key),
        key < u32::MAX,
    ensures
        key_handle(key) != 0,
        lookup(entries.insert(key, state), key_handle(key)) == Some(state),
{
    assert(key as u32 == key);
}

/// Two engines stored under different keys below `u32::MAX` get different
/// handles.
pub proof fn lemma_handles_distinct(k1: usize, k2: usize)
    requires
        k1 < u32::MAX,
        k2 < u32::MAX,
        k1 != k2,
    ensures
        key_handle(k1) != key_handle(k2),
{
    assert(k1 as u32 == k1);
    assert(k2 as u32 == k2);
}

/// After `remove(handle)` the handle names no engine, and every handle for
/// another key names what it named before.
pub proof fn lemma_remove_then_lookup(before: Map<usize, EngineState>, after: Map<usize, EngineState>, handle: u32)
    requires
        handle == 0 ==> after == before,
        handle != 0 ==> after == before.remove(handle_key(handle)),
    ensures
        lookup(after, handle) is None,
        forall|h: u32|
            h != 0 && handle_key(h) != handle_key(handle) ==> #[trigger] lookup(after, h) == lookup(
                before,
                h,
            ),
{
    assert forall|h: u32| h != 0 && handle_key(h) != handle_key(handle) implies #[trigger] lookup(after, h)
        == lookup(before, h) by {
        if handle != 0 {
            assert(after.contains_key(handle_key(h)) == before.contains_key(handle_key(h)));
        }
    }
}

/// Options with no field set leave the engine as it was.
pub proof fn lemma_empty_options_keep_state(s: EngineState, o: EngineOptions)
    requires
        o.is_empty(),
    ensures
        options_applied(s, o) == Ok::<EngineState, Seq<char>>(s),
{
}

/// Applying the same options twice gives what applying them once gives.
pub proof fn lemma_apply_options_idempotent(s: EngineState, s1: EngineState, o: EngineOptions)
    requires
        options_applied(s, o) == Ok::<EngineState, Seq<char>>(s1),
    ensures
        options_applied(s1, o) == Ok::<EngineState, Seq<char>>(s1),
{
}

/// The options `o2` laid over `o1`: each field of `o2` that is set, else
/// that of `o1`.
pub open spec fn override_options(o1: EngineOptions, o2: EngineOptions) -> EngineOptions {
    EngineOptions {
        page_size: if o2.page_size is Some { o2.page_size } else { o1.page_size },
        margin: if o2.margin is Some { o2.margin } else { o1.margin },
        landscape: if o2.landscape is Some { o2.landscape } else { o1.landscape },
        title: if o2.title is Some { o2.title } else { o1.title },
        authors: if o2.authors is Some { o2.authors } else { o1.authors },
        description: if o2.description is Some { o2.description } else { o1.description },
        keywords: if o2.keywords is Some { o2.keywords } else { o1.keywords },
        creator: if o2.creator is Some { o2.creator } else { o1.creator },
        producer: if o2.producer is Some { o2.producer } else { o1.producer },
        creation_date: if o2.creation_date is Some { o2.creation_date } else { o1.creation_date },
        lang: if o2.lang is Some { o2.lang } else { o1.lang },
        bookmarks: if o2.bookmarks is Some { o2.bookmarks } else { o1.bookmarks },
    }
}

/// Options are sticky and override field by field: configuring with `o1`
/// and then with `o2` gives the engine that configuring once with `o2` laid
/// over `o1` gives.
#[verifier::spinoff_prover]
#[verifier::rlimit(30)]
pub proof fn lemma_apply_options_compose(
    s: EngineState,
    s1: EngineState,
    s2: EngineState,
    o1: EngineOptions,
    o2: EngineOptions,
)
    requires
        options_applied(s, o1) == Ok::<EngineState, Seq<char>>(s1),
        options_applied(s1, o2) == Ok::<EngineState, Seq<char>>(s2),
    ensures
        options_applied(s, override_options(o1, o2)) == Ok::<EngineState, Seq<char>>(s2),
{
    let o = override_options(o1, o2);
    let page = s2.page_size;
    assert(s1 == merge_options(s, o1, s1.page_size));
    assert(s2 == merge_options(s1, o2, s2.page_size));
    if o2.page_size is Some {
        assert(o.page_size == o2.page_size);
        assert(page_size_of(o.page_size->0) matches Ok(p) && s2.page_size == Some(p));
    } else if o1.page_size is Some {
        assert(o.page_size == o1.page_size);
        assert(page_size_of(o.page_size->0) matches Ok(p) && s2.page_size == Some(p));
    } else {
        assert(o.page_size is None);
        assert(s2.page_size == s.page_size);
    }
    assert(merge_options(s, o, page) == s2);
}

} // verus!

verus! {

/// Configuring an engine sets each field that the options set to the value
/// they give, keeps every other field, and keeps the assets.
pub proof fn lemma_apply_options_sets_fields(s: EngineState, o: EngineOptions, s2: EngineState)
    requires
        options_applied(s, o) == Ok::<EngineState, Seq<char>>(s2),
    ensures
        fields_overridden(s, o, s2),
{
}

/// Configuring fails exactly when the options name an unknown page size.
pub proof fn lemma_apply_options_fails_only_on_unknown_page_size(s: EngineState, o: EngineOptions)
    ensures
        options_applied(s, o) is Err <==> page_size_unknown(o),
{
}

} // verus!
