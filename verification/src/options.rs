//! Engine configuration options.
//!
//! Every field is optional: a field that is present overrides the engine's
//! prior value, one that is absent leaves it alone. Lengths that the host
//! gives as `f32` are carried here as the `f32`'s bit pattern (`f32::to_bits`);
//! nothing in this crate computes with them.
use vstd::prelude::*;

verus! {

/// The page size as the host names it.
#[derive(Debug)]
pub enum PageSizeOption {
    /// A size by name: `A4`, `A3` or `Letter`, in any ASCII case.
    Named(String),
    /// A size in millimetres (bit patterns of `f32`).
    Custom { width_mm_bits: u32, height_mm_bits: u32 },
}

/// Page margins as the host gives them (bit patterns of `f32`).
#[derive(Clone, Copy, Debug, PartialEq, Eq, Structural)]
pub enum MarginOption {
    /// The same margin on all four sides, in millimetres.
    Mm { mm_bits: u32 },
    /// The same margin on all four sides, in points.
    Pt { pt_bits: u32 },
    /// One margin per side, in millimetres.
    Full { top_mm_bits: u32, right_mm_bits: u32, bottom_mm_bits: u32, left_mm_bits: u32 },
}

/// A page size the engine knows.
#[derive(Clone, Copy, Debug, PartialEq, Eq, Structural)]
pub enum PageSize {
    A4,
    A3,
    Letter,
    /// Width and height in millimetres (bit patterns of `f32`).
    Custom { width_mm_bits: u32, height_mm_bits: u32 },
}

/// A partial configuration: each `Some` field overrides the engine's value.
#[derive(Debug)]
pub struct EngineOptions {
    pub page_size: Option<PageSizeOption>,
    pub margin: Option<MarginOption>,
    pub landscape: Option<bool>,
    pub title: Option<String>,
    pub authors: Option<Vec<String>>,
    pub description: Option<String>,
    pub keywords: Option<Vec<String>>,
    pub creator: Option<String>,
    pub producer: Option<String>,
    pub creation_date: Option<String>,
    pub lang: Option<String>,
    pub bookmarks: Option<bool>,
}

impl EngineOptions {
    /// No field is set.
    pub open spec fn is_empty(&self) -> bool {
        &&& self.page_size is None
        &&& self.margin is None
        &&& self.landscape is None
        &&& self.title is None
        &&& self.authors is None
        &&& self.description is None
        &&& self.keywords is None
        &&& self.creator is None
        &&& self.producer is None
        &&& self.creation_date is None
        &&& self.lang is None
        &&& self.bookmarks is None
    }
}

impl Default for EngineOptions {
    fn default() -> (o: EngineOptions)
        ensures
            o.is_empty(),
    {
        EngineOptions {
            page_size: None,
            margin: None,
            landscape: None,
            title: None,
            authors: None,
            description: None,
            keywords: None,
            creator: None,
            producer: None,
            creation_date: None,
            lang: None,
            bookmarks: None,
        }
    }
}

/// `c` with an ASCII upper-case letter mapped to its lower-case form.
pub open spec fn ascii_lower_char(c: char) -> char {
    if 'A' <= c <= 'Z' {
        ((c as u32) + 32) as char
    } else {
        c
    }
}

/// `s` with every ASCII upper-case letter mapped to lower case.
pub open spec fn ascii_lower(s: Seq<char>) -> Seq<char> {
    s.map_values(|c: char| ascii_lower_char(c))
}

/// The page size that a lower-case name stands for.
pub open spec fn named_page_size(lower: Seq<char>) -> Option<PageSize> {
    if lower == seq!['a', '4'] {
        Some(PageSize::A4)
    } else if lower == seq!['a', '3'] {
        Some(PageSize::A3)
    } else if lower == seq!['l', 'e', 't', 't', 'e', 'r'] {
        Some(PageSize::Letter)
    } else {
        None
    }
}

/// The message for a name that is no page size.
pub open spec fn unknown_page_size_message(lower: Seq<char>) -> Seq<char> {
    "unknown page size: "@ + lower
}

/// `r` is what a page-size name reads as, given the name in lower case:
/// `a4`, `a3` and `letter` name those sizes, and any other name is an error
/// that quotes it.
pub open spec fn resolves_name(lower: Seq<char>, r: Result<PageSize, String>) -> bool {
    if lower == seq!['a', '4'] {
        r == Ok::<PageSize, String>(PageSize::A4)
    } else if lower == seq!['a', '3'] {
        r == Ok::<PageSize, String>(PageSize::A3)
    } else if lower == seq!['l', 'e', 't', 't', 'e', 'r'] {
        r == Ok::<PageSize, String>(PageSize::Letter)
    } else {
        r matches Err(e) && e@ == "unknown page size: "@ + lower
    }
}

/// What `to_page_size` gives for an option: the size, or the error message.
pub open spec fn page_size_of(o: PageSizeOption) -> Result<PageSize, Seq<char>> {
    match o {
        PageSizeOption::Named(name) => match named_page_size(ascii_lower(name@)) {
            Some(ps) => Ok(ps),
            None => Err(unknown_page_size_message(ascii_lower(name@))),
        },
        PageSizeOption::Custom { width_mm_bits, height_mm_bits } => Ok(
            PageSize::Custom { width_mm_bits, height_mm_bits },
        ),
    }
}

/// Calls `str::to_ascii_lowercase`: a copy of `s` with the ASCII letters
/// `A` to `Z` mapped to `a` to `z` and every other character unchanged.
#[verifier::external_body]
fn to_ascii_lowercase(s: &str) -> (lower: String)
    ensures
        lower@ == ascii_lower(s@),
{
    s.to_ascii_lowercase()
}

impl PageSizeOption {
    /// The page size, or an error naming the lower-cased unknown name.
    pub fn to_page_size(&self) -> (r: Result<PageSize, String>)
        ensures
            match page_size_of(*self) {
                Ok(ps) => r == Ok::<PageSize, String>(ps),
                Err(msg) => r matches Err(e) && e@ == msg,
            },
            match *self {
                PageSizeOption::Custom { width_mm_bits, height_mm_bits } => r == Ok::<
                    PageSize,
                    String,
                >(PageSize::Custom { width_mm_bits, height_mm_bits }),
                PageSizeOption::Named(name) => resolves_name(ascii_lower(name@), r),
            },
    {
        match self {
            PageSizeOption::Named(name) => {
                let lower = to_ascii_lowercase(name.as_str());
                proof {
                    reveal_strlit("a4");
                    reveal_strlit("a3");
                    reveal_strlit("letter");
                }
                if lower == String::from_str("a4") {
                    assert("a4"@ =~= seq!['a', '4']);
                    Ok(PageSize::A4)
                } else if lower == String::from_str("a3") {
                    assert("a3"@ =~= seq!['a', '3']);
                    Ok(PageSize::A3)
                } else if lower == String::from_str("letter") {
                    assert("letter"@ =~= seq!['l', 'e', 't', 't', 'e', 'r']);
                    Ok(PageSize::Letter)
                } else {
                    assert(named_page_size(lower@) is None) by {
                        if lower@ == seq!['a', '4'] {
                            assert("a4"@ =~= seq!['a', '4']);
                        }
                        if lower@ == seq!['a', '3'] {
                            assert("a3"@ =~= seq!['a', '3']);
                        }
                        if lower@ == seq!['l', 'e', 't', 't', 'e', 'r'] {
                            assert("letter"@ =~= seq!['l', 'e', 't', 't', 'e', 'r']);
                        }
                    }
                    let mut msg = String::from_str("unknown page size: ");
                    msg.append(lower.as_str());
                    Err(msg)
                }
            },
            PageSizeOption::Custom { width_mm_bits, height_mm_bits } => Ok(
                PageSize::Custom { width_mm_bits: *width_mm_bits, height_mm_bits: *height_mm_bits },
            ),
        }
    }
}

} // verus!

verus! {

/// Page size names are read without regard to ASCII case.
pub proof fn lemma_page_size_names_ignore_case(a: String, b: String)
    requires
        ascii_lower(a@) == ascii_lower(b@),
    ensures
        page_size_of(PageSizeOption::Named(a)) == page_size_of(PageSizeOption::Named(b)),
{
}

} // verus!

verus! {

/// A custom page size passes through as given, width and height unchanged.
pub proof fn lemma_custom_page_size_passes_through(width_mm_bits: u32, height_mm_bits: u32)
    ensures
        page_size_of(PageSizeOption::Custom { width_mm_bits, height_mm_bits }) == Ok::<
            PageSize,
            Seq<char>,
        >(PageSize::Custom { width_mm_bits, height_mm_bits }),
{
}

/// `a4`, `a3` and `letter`, in any ASCII case, name those page sizes; any
/// other name is an error that quotes it in lower case.
pub proof fn lemma_named_page_sizes(name: String)
    ensures
        ascii_lower(name@) == seq!['a', '4'] ==> page_size_of(PageSizeOption::Named(name)) == Ok::<
            PageSize,
            Seq<char>,
        >(PageSize::A4),
        ascii_lower(name@) == seq!['a', '3'] ==> page_size_of(PageSizeOption::Named(name)) == Ok::<
            PageSize,
            Seq<char>,
        >(PageSize::A3),
        ascii_lower(name@) == seq!['l', 'e', 't', 't', 'e', 'r'] ==> page_size_of(
            PageSizeOption::Named(name),
        ) == Ok::<PageSize, Seq<char>>(PageSize::Letter),
        ascii_lower(name@) != seq!['a', '4'] && ascii_lower(name@) != seq!['a', '3']
            && ascii_lower(name@) != seq!['l', 'e', 't', 't', 'e', 'r'] ==> page_size_of(
            PageSizeOption::Named(name),
        ) == Err::<PageSize, Seq<char>>("unknown page size: "@ + ascii_lower(name@)),
{
}

} // verus!
