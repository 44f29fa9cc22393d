//! Levels of the four-level table hierarchy, and the page sizes that a leaf
//! at each level maps.
use vstd::prelude::*;

use crate::address::{level_span, GIGA_PAGE_SIZE, MEGA_PAGE_SIZE, PAGE_SIZE, TERA_PAGE_SIZE};

verus! {

/// Depth in the table hierarchy: `Level0` holds 4 KiB leaves, `Level3` is
/// the root.
#[derive(Clone, Copy, Debug, PartialEq, Eq, Structural, Hash, PartialOrd, Ord)]
pub enum PageLevel {
    Level0,
    Level1,
    Level2,
    Level3,
}

impl PageLevel {
    /// The level as a number, 0 at the bottom.
    pub open spec fn index(self) -> nat {
        match self {
            PageLevel::Level0 => 0,
            PageLevel::Level1 => 1,
            PageLevel::Level2 => 2,
            PageLevel::Level3 => 3,
        }
    }

    /// Size of what one entry of a table at this level covers.
    pub open spec fn span(self) -> u64 {
        level_span(self.index())
    }

    /// The level numbered `i`; the root for any number above 3.
    pub open spec fn from_index(i: nat) -> PageLevel {
        if i == 0 {
            PageLevel::Level0
        } else if i == 1 {
            PageLevel::Level1
        } else if i == 2 {
            PageLevel::Level2
        } else {
            PageLevel::Level3
        }
    }

    /// The level as a number, 0 at the bottom.
    pub fn index_exec(self) -> (r: u64)
        ensures
            r == self.index(),
    {
        match self {
            PageLevel::Level0 => 0,
            PageLevel::Level1 => 1,
            PageLevel::Level2 => 2,
            PageLevel::Level3 => 3,
        }
    }

    /// The level above, if any.
    pub fn up(self) -> (r: Option<PageLevel>)
        ensures
            r == (if self.index() == 3 {
                None
            } else {
                Some(PageLevel::from_index(self.index() + 1))
            }),
    {
        match self {
            PageLevel::Level0 => Some(PageLevel::Level1),
            PageLevel::Level1 => Some(PageLevel::Level2),
            PageLevel::Level2 => Some(PageLevel::Level3),
            PageLevel::Level3 => None,
        }
    }

    /// The level below, if any.
    pub fn down(self) -> (r: Option<PageLevel>)
        ensures
            r == (if self.index() == 0 {
                None
            } else {
                Some(PageLevel::from_index((self.index() - 1) as nat))
            }),
    {
        match self {
            PageLevel::Level0 => None,
            PageLevel::Level1 => Some(PageLevel::Level0),
            PageLevel::Level2 => Some(PageLevel::Level1),
            PageLevel::Level3 => Some(PageLevel::Level2),
        }
    }

    /// Whether this is the root level.
    pub fn top(self) -> (r: bool)
        ensures
            r == (self == PageLevel::Level3),
    {
        self == PageLevel::Level3
    }

    /// Whether this is the leaf-only level.
    pub fn bottom(self) -> (r: bool)
        ensures
            r == (self == PageLevel::Level0),
    {
        self == PageLevel::Level0
    }

    /// Size of what one entry of a table at this level covers.
    pub fn span_size(self) -> (r: u64)
        ensures
            r == self.span(),
    {
        match self {
            PageLevel::Level0 => PAGE_SIZE,
            PageLevel::Level1 => MEGA_PAGE_SIZE,
            PageLevel::Level2 => GIGA_PAGE_SIZE,
            PageLevel::Level3 => TERA_PAGE_SIZE,
        }
    }
}

/// The root level as a type.
pub enum Level3 {
    Marker,
}

/// The level of 1 GiB leaves as a type.
pub enum Level2 {
    Marker,
}

/// The level of 2 MiB leaves as a type.
pub enum Level1 {
    Marker,
}

/// The level of 4 KiB leaves as a type.
pub enum Level0 {
    Marker,
}

/// A type that names one level of the hierarchy.
pub trait TableLevel {
    /// The level the type names.
    fn level() -> (r: PageLevel);
}

/// A level with tables below it.
pub trait HierarchicalLevel: TableLevel {
    /// The level below.
    fn next() -> (r: PageLevel);
}

impl TableLevel for Level3 {
    fn level() -> (r: PageLevel)
        ensures
            r == PageLevel::Level3,
    {
        PageLevel::Level3
    }
}

impl TableLevel for Level2 {
    fn level() -> (r: PageLevel)
        ensures
            r == PageLevel::Level2,
    {
        PageLevel::Level2
    }
}

impl TableLevel for Level1 {
    fn level() -> (r: PageLevel)
        ensures
            r == PageLevel::Level1,
    {
        PageLevel::Level1
    }
}

impl TableLevel for Level0 {
    fn level() -> (r: PageLevel)
        ensures
            r == PageLevel::Level0,
    {
        PageLevel::Level0
    }
}

impl HierarchicalLevel for Level3 {
    fn next() -> (r: PageLevel)
        ensures
            r == PageLevel::Level2,
    {
        PageLevel::Level2
    }
}

impl HierarchicalLevel for Level2 {
    fn next() -> (r: PageLevel)
        ensures
            r == PageLevel::Level1,
    {
        PageLevel::Level1
    }
}

impl HierarchicalLevel for Level1 {
    fn next() -> (r: PageLevel)
        ensures
            r == PageLevel::Level0,
    {
        PageLevel::Level0
    }
}

/// An address aligned to the span of a level is page-aligned.
pub proof fn lemma_span_aligned(x: u64, level: PageLevel)
    requires
        x % level.span() == 0,
    ensures
        x % PAGE_SIZE == 0,
{
    let m = (level.span() / PAGE_SIZE) as int;
    assert(level.span() == PAGE_SIZE * m);
    vstd::arithmetic::div_mod::lemma_mod_mod(x as int, PAGE_SIZE as int, m);
}

/// Whether a page at `level` fits at `position` within `at_most` bytes: its
/// size is no more than `at_most` and `position` is aligned to it.
pub open spec fn page_fits(position: u64, at_most: u64, level: PageLevel) -> bool {
    level.span() <= at_most && position % level.span() == 0
}

/// The largest level whose page fits at `position` within `at_most` bytes
/// (level 0 when none does).
pub open spec fn largest_fit(position: u64, at_most: u64) -> PageLevel {
    if page_fits(position, at_most, PageLevel::Level3) {
        PageLevel::Level3
    } else if page_fits(position, at_most, PageLevel::Level2) {
        PageLevel::Level2
    } else if page_fits(position, at_most, PageLevel::Level1) {
        PageLevel::Level1
    } else {
        PageLevel::Level0
    }
}

/// A physical page of one of the four sizes, with its base address.
#[derive(Clone, Copy, Debug, PartialEq, Eq, Structural, Hash)]
pub enum BigPage {
    Page(u64),
    MegaPage(u64),
    GigaPage(u64),
    TeraPage(u64),
}

impl BigPage {
    /// The page that `BigPage::new(level, address)` gives.
    pub open spec fn spec_new(level: PageLevel, address: u64) -> BigPage {
        match level {
            PageLevel::Level0 => BigPage::Page(address),
            PageLevel::Level1 => BigPage::MegaPage(address),
            PageLevel::Level2 => BigPage::GigaPage(address),
            PageLevel::Level3 => BigPage::TeraPage(address),
        }
    }

    /// The level at which a leaf maps the page.
    pub open spec fn spec_level(self) -> PageLevel {
        match self {
            BigPage::Page(_) => PageLevel::Level0,
            BigPage::MegaPage(_) => PageLevel::Level1,
            BigPage::GigaPage(_) => PageLevel::Level2,
            BigPage::TeraPage(_) => PageLevel::Level3,
        }
    }

    /// Size of the page in bytes.
    pub open spec fn spec_size(self) -> u64 {
        self.spec_level().span()
    }

    /// Base address of the page.
    pub open spec fn spec_position(self) -> u64 {
        match self {
            BigPage::Page(n) => n,
            BigPage::MegaPage(n) => n,
            BigPage::GigaPage(n) => n,
            BigPage::TeraPage(n) => n,
        }
    }

    /// The page of the size of `level` at `address`.
    pub fn new(level: PageLevel, address: u64) -> (r: BigPage)
        ensures
            r == BigPage::spec_new(level, address),
            r.spec_level() == level,
            r.spec_position() == address,
    {
        match level {
            PageLevel::Level0 => BigPage::Page(address),
            PageLevel::Level1 => BigPage::MegaPage(address),
            PageLevel::Level2 => BigPage::GigaPage(address),
            PageLevel::Level3 => BigPage::TeraPage(address),
        }
    }

    /// The level at which a leaf maps this page.
    pub fn level(self) -> (r: PageLevel)
        ensures
            r == self.spec_level(),
    {
        match self {
            BigPage::Page(_) => PageLevel::Level0,
            BigPage::MegaPage(_) => PageLevel::Level1,
            BigPage::GigaPage(_) => PageLevel::Level2,
            BigPage::TeraPage(_) => PageLevel::Level3,
        }
    }

    /// Size of the page in bytes.
    pub fn size(self) -> (r: u64)
        ensures
            r == self.spec_size(),
    {
        match self {
            BigPage::Page(_) => PAGE_SIZE,
            BigPage::MegaPage(_) => MEGA_PAGE_SIZE,
            BigPage::GigaPage(_) => GIGA_PAGE_SIZE,
            BigPage::TeraPage(_) => TERA_PAGE_SIZE,
        }
    }

    /// Base address of the page.
    pub fn position(self) -> (r: u64)
        ensures
            r == self.spec_position(),
    {
        match self {
            BigPage::Page(n) => n,
            BigPage::MegaPage(n) => n,
            BigPage::GigaPage(n) => n,
            BigPage::TeraPage(n) => n,
        }
    }

    /// The largest page that starts at `position`, is aligned to its own
    /// size and is no longer than `at_most`. A 4 KiB page must fit.
    pub fn page_for(position: u64, at_most: u64) -> (r: BigPage)
        requires
            page_fits(position, at_most, PageLevel::Level0),
        ensures
            r == BigPage::spec_new(largest_fit(position, at_most), position),
            r.spec_position() == position,
            r.spec_size() <= at_most,
            r.spec_position() % r.spec_size() == 0,
    {
        if at_most >= TERA_PAGE_SIZE && position % TERA_PAGE_SIZE == 0 {
            BigPage::TeraPage(position)
        } else if at_most >= GIGA_PAGE_SIZE && position % GIGA_PAGE_SIZE == 0 {
            BigPage::GigaPage(position)
        } else if at_most >= MEGA_PAGE_SIZE && position % MEGA_PAGE_SIZE == 0 {
            BigPage::MegaPage(position)
        } else {
            BigPage::Page(position)
        }
    }
}

} // verus!
