//! The cart browser: moving through a grid of carts page by page, choosing
//! one or leaving, and the texts shown on its cards.
use vstd::prelude::*;

use crate::cart::Cart;
use crate::input::{just_down, just_left, just_right, just_up, Input};
use crate::text::{
    chars_of, decimal_digits, push_all, push_decimal, sat_sub, shorten, shortened,
    string_from_chars,
};

verus! {

/// Carts in a row of the grid.
pub const COLUMNS: usize = 4;

/// Rows of the grid on a page.
pub const ROWS: usize = 2;

/// Carts on a page.
pub const PER_PAGE: usize = 8;

/// The longest card title, in characters.
pub const TITLE_MAX: usize = 28;

/// The longest source line on a card, in characters.
pub const SOURCE_MAX: usize = 34;

/// The browser: which of `count` carts is selected.
pub struct Browser {
    pub selected: usize,
    pub count: usize,
}

/// What a frame of the browser asks of the caller.
#[derive(Debug, PartialEq, Eq, Structural, Clone, Copy)]
pub enum BrowserAction {
    /// Keep browsing.
    Stay,
    /// Leave without choosing.
    Cancel,
    /// Leave choosing the cart at this place.
    Choose(usize),
}

/// The selection after the direction controls: left and right move by one,
/// up and down by a row, never past the first or the last cart (up stops at
/// the first; down does not move when there is no cart below).
pub open spec fn browse_move(selected: nat, count: nat, input: Input) -> nat {
    let s1 = if input.left && selected > 0 {
        (selected - 1) as nat
    } else {
        selected
    };
    let s2 = if input.right && s1 + 1 < count {
        s1 + 1
    } else {
        s1
    };
    let s3 = if input.up {
        sat_sub(s2, COLUMNS as nat)
    } else {
        s2
    };
    if input.down && s3 + COLUMNS < count {
        s3 + COLUMNS as nat
    } else {
        s3
    }
}

/// Each direction alone moves the selection by its own step: left back by
/// one and right forward by one while there is a cart there, up back by a row
/// (stopping at the first cart), down forward by a row while there is a cart
/// there; no direction leaves it in place.
pub proof fn lemma_browse_move_directions(selected: nat, count: nat, input: Input)
    ensures
        input.left && !input.right && !input.up && !input.down ==> browse_move(
            selected,
            count,
            input,
        ) == (if selected > 0 {
            selected - 1
        } else {
            selected as int
        }),
        !input.left && input.right && !input.up && !input.down ==> browse_move(
            selected,
            count,
            input,
        ) == (if selected + 1 < count {
            selected + 1int
        } else {
            selected as int
        }),
        !input.left && !input.right && input.up && !input.down ==> browse_move(
            selected,
            count,
            input,
        ) == (if selected >= COLUMNS {
            selected - COLUMNS
        } else {
            0
        }),
        !input.left && !input.right && !input.up && input.down ==> browse_move(
            selected,
            count,
            input,
        ) == (if selected + COLUMNS < count {
            selected + COLUMNS as int
        } else {
            selected as int
        }),
        !input.left && !input.right && !input.up && !input.down ==> browse_move(
            selected,
            count,
            input,
        ) == selected,
{
}

/// The controls of a frame act one after the other: left, then right, then
/// up, then down, each as it acts alone.
pub proof fn lemma_browse_move_in_order(selected: nat, count: nat, input: Input)
    ensures
        browse_move(selected, count, input) == browse_move(
            browse_move(
                browse_move(
                    browse_move(selected, count, just_left(input)),
                    count,
                    just_right(input),
                ),
                count,
                just_up(input),
            ),
            count,
            just_down(input),
        ),
{
}

impl Browser {
    /// Whether the selection is on one of the carts.
    pub open spec fn wf(&self) -> bool {
        self.selected < self.count
    }

    /// A browser over `count` carts with the first selected; none when there
    /// are no carts, as then there is nothing to browse.
    pub fn new(count: usize) -> (b: Option<Browser>)
        ensures
            count == 0 <==> b is None,
            b matches Some(b) ==> b.selected == 0 && b.count == count && b.wf(),
    {
        if count == 0 {
            None
        } else {
            Some(Browser { selected: 0, count })
        }
    }

    /// One frame: the selection moves (see `browse_move`); then back leaves,
    /// else accept chooses the selected cart.
    pub fn step(&mut self, input: &Input) -> (action: BrowserAction)
        requires
            old(self).wf(),
        ensures
            final(self).count == old(self).count,
            final(self).selected == browse_move(
                old(self).selected as nat,
                old(self).count as nat,
                *input,
            ),
            final(self).wf(),
            input.left && !input.right && !input.up && !input.down ==> final(self).selected == (
            if old(self).selected > 0 {
                old(self).selected - 1
            } else {
                old(self).selected as int
            }),
            !input.left && input.right && !input.up && !input.down ==> final(self).selected == (
            if old(self).selected + 1 < old(self).count {
                old(self).selected + 1int
            } else {
                old(self).selected as int
            }),
            !input.left && !input.right && input.up && !input.down ==> final(self).selected == (
            if old(self).selected >= COLUMNS {
                old(self).selected - COLUMNS
            } else {
                0
            }),
            !input.left && !input.right && !input.up && input.down ==> final(self).selected == (
            if old(self).selected + COLUMNS < old(self).count {
                old(self).selected + COLUMNS as int
            } else {
                old(self).selected as int
            }),
            !input.left && !input.right && !input.up && !input.down ==> final(self).selected
                == old(self).selected,
            action == (if input.back {
                BrowserAction::Cancel
            } else if input.accept {
                BrowserAction::Choose(final(self).selected)
            } else {
                BrowserAction::Stay
            }),
    {
        proof {
            lemma_browse_move_directions(self.selected as nat, self.count as nat, *input);
        }
        let count = self.count;
        let mut s = self.selected;
        if input.left && s > 0 {
            s = s - 1;
        }
        if input.right && s + 1 < count {
            s = s + 1;
        }
        if input.up {
            s = if s >= COLUMNS {
                s - COLUMNS
            } else {
                0
            };
        }
        if input.down && count >= COLUMNS && s < count - COLUMNS {
            s = s + COLUMNS;
        }
        self.selected = s;
        if input.back {
            BrowserAction::Cancel
        } else if input.accept {
            BrowserAction::Choose(s)
        } else {
            BrowserAction::Stay
        }
    }

    /// The page the selection is on, counted from 0.
    pub fn page(&self) -> (p: usize)
        ensures
            p == self.selected / PER_PAGE,
    {
        self.selected / PER_PAGE
    }

    /// The places of the carts on the selection's page: from the page's first
    /// place up to, not including, the end.
    pub fn page_range(&self) -> (r: (usize, usize))
        requires
            self.wf(),
        ensures
            r.0 == (self.selected / PER_PAGE) * PER_PAGE,
            r.1 == if r.0 + PER_PAGE < self.count {
                r.0 + PER_PAGE
            } else {
                self.count as int
            },
            r.0 <= self.selected < r.1 <= self.count,
    {
        let start = (self.selected / PER_PAGE) * PER_PAGE;
        let end = if self.count >= PER_PAGE && start < self.count - PER_PAGE {
            start + PER_PAGE
        } else {
            self.count
        };
        (start, end)
    }

    /// The number of pages: the carts divided by the page size, rounded up.
    pub fn page_count(&self) -> (n: usize)
        ensures
            n == (self.count + PER_PAGE - 1) / (PER_PAGE as int),
    {
        self.count / PER_PAGE + if self.count % PER_PAGE != 0 {
            1
        } else {
            0
        }
    }
}

/// The title shown on a card: the cart's name, cut to 27 characters and an
/// ellipsis when it is longer than 28.
pub fn card_title(cart: &Cart) -> (t: String)
    ensures
        t@ == shortened(cart.name@, TITLE_MAX as nat),
{
    let v = shorten(&chars_of(cart.name.as_str()), TITLE_MAX);
    string_from_chars(v.as_slice())
}

/// The source line shown on a card: where the game came from, cut to 33
/// characters and an ellipsis when longer than 34, or "REMOVABLE MEDIA" when
/// it is not known.
pub fn card_source(cart: &Cart) -> (t: String)
    ensures
        t@ == (if cart.source@.len() == 0 {
            "REMOVABLE MEDIA"@
        } else {
            shortened(cart.source@, SOURCE_MAX as nat)
        }),
{
    if cart.source.as_str().is_empty() {
        "REMOVABLE MEDIA".to_owned()
    } else {
        let v = shorten(&chars_of(cart.source.as_str()), SOURCE_MAX);
        string_from_chars(v.as_slice())
    }
}

/// What `str::to_uppercase` gives for a text: each character replaced by its
/// Unicode upper-case mapping.
pub uninterp spec fn uppercase(s: Seq<char>) -> Seq<char>;

/// `s` in upper case (std's `str::to_uppercase`).
#[verifier::external_body]
fn to_uppercase(s: &str) -> (r: String)
    ensures
        r@ == uppercase(s@),
{
    s.to_uppercase()
}

/// The second line of a card: the system in upper case, a bullet, and the
/// runtime.
pub fn card_subtitle(cart: &Cart) -> (t: String)
    ensures
        t@ == uppercase(cart.system@) + "  \u{2022}  "@ + cart.runtime@,
{
    let upper = to_uppercase(cart.system.as_str());
    let mut v = chars_of(upper.as_str());
    push_all(&mut v, &chars_of("  \u{2022}  "));
    push_all(&mut v, &chars_of(cart.runtime.as_str()));
    string_from_chars(v.as_slice())
}

/// The line under the title: how many carts were found.
pub fn browser_heading(count: usize) -> (t: String)
    ensures
        t@ == decimal_digits(count as nat) + " RECOGNIZED ROMS ON REMOVABLE MEDIA"@,
{
    let mut v: Vec<char> = Vec::new();
    push_decimal(count, &mut v);
    push_all(&mut v, &chars_of(" RECOGNIZED ROMS ON REMOVABLE MEDIA"));
    assert(v@ =~= decimal_digits(count as nat) + " RECOGNIZED ROMS ON REMOVABLE MEDIA"@);
    string_from_chars(v.as_slice())
}

/// The footer: the page shown, counted from 1, out of the pages, and the
/// controls.
pub fn browser_footer(browser: &Browser) -> (t: String)
    requires
        browser.wf(),
    ensures
        t@ == "PAGE "@ + decimal_digits(browser.selected as nat / PER_PAGE as nat + 1) + " / "@
            + decimal_digits(((browser.count + PER_PAGE - 1) / (PER_PAGE as int)) as nat)
            + "   \u{2022}   A PLAY   B CANCEL"@,
{
    let mut v = chars_of("PAGE ");
    push_decimal(browser.page() + 1, &mut v);
    push_all(&mut v, &chars_of(" / "));
    push_decimal(browser.page_count(), &mut v);
    push_all(&mut v, &chars_of("   \u{2022}   A PLAY   B CANCEL"));
    string_from_chars(v.as_slice())
}

} // verus!
