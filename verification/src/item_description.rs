//! The records of the vault as a menu: one row for each record, with its
//! title, what the vault manager adds to it, and its first address.

use crate::error::{result_text, Error};
use crate::text::{chars_of, trim_bounds, trimmed};
use crate::wofi_select::{lemma_round_trip, selected, table, table_lines, wofi_select_table};
use vstd::prelude::*;
use vstd::string::*;

verus! {

// ---------------------------------------------------------------------------
// Records
// ---------------------------------------------------------------------------

/// The title of the record menu.
pub const ITEM_TITLE: &'static str = "🔐 1Password";

/// The prompt of the record menu.
pub const ITEM_PROMPT: &'static str = "Select login";

/// A record of the vault as the vault manager lists it, without its fields.
#[derive(Debug, Clone, PartialEq, Eq)]
pub struct ItemDescription {
    pub id: String,
    pub title: String,
    pub version: u32,
    pub vault: Vault,
    pub category: String,
    pub last_edited_by: String,
    pub created_at: String,
    pub updated_at: String,
    pub additional_information: Option<String>,
    pub urls: Option<Vec<Url>>,
}

/// The vault that a record lies in.
#[derive(Debug, Clone, PartialEq, Eq)]
pub struct Vault {
    pub id: String,
    pub name: String,
}

/// An address stored with a record.
#[derive(Debug, Clone, PartialEq, Eq)]
pub struct Url {
    pub primary: Option<bool>,
    pub href: String,
}

// ---------------------------------------------------------------------------
// Model
// ---------------------------------------------------------------------------

/// What the menu reads of a record.
pub struct ItemDescriptionView {
    pub id: Seq<char>,
    pub title: Seq<char>,
    pub additional_information: Option<Seq<char>>,
    /// The addresses of the record, in order; `None` where it has no list.
    pub urls: Option<Seq<Seq<char>>>,
}

impl View for ItemDescription {
    type V = ItemDescriptionView;

    open spec fn view(&self) -> ItemDescriptionView {
        ItemDescriptionView {
            id: self.id@,
            title: self.title@,
            additional_information: match self.additional_information {
                Some(text) => Some(text@),
                None => None,
            },
            urls: match self.urls {
                Some(urls) => Some(urls@.map_values(|u: Url| u.href@)),
                None => None,
            },
        }
    }
}

/// The records of `items` as the menu reads them.
pub open spec fn description_views(items: Seq<ItemDescription>) -> Seq<ItemDescriptionView> {
    items.map_values(|item: ItemDescription| item@)
}

/// The first address of a record; the empty text where it has none.
pub open spec fn first_url(item: ItemDescriptionView) -> Seq<char> {
    match item.urls {
        Some(urls) => if urls.len() > 0 {
            urls[0]
        } else {
            Seq::empty()
        },
        None => Seq::empty(),
    }
}

/// The menu row of a record: its title, what the vault manager adds to it,
/// and its first address. What a record lacks is an empty cell.
pub open spec fn item_row(item: ItemDescriptionView) -> Seq<Seq<char>> {
    seq![
        item.title,
        match item.additional_information {
            Some(text) => text,
            None => Seq::empty(),
        },
        first_url(item),
    ]
}

/// The menu rows of `items`.
pub open spec fn item_table(items: Seq<ItemDescriptionView>) -> Seq<Seq<Seq<char>>> {
    items.map_values(|item: ItemDescriptionView| item_row(item))
}

/// The record chosen from `items`, given what the picker run came to.
pub open spec fn chosen(items: Seq<ItemDescription>, presented: Result<Seq<char>, Error>)
    -> Result<ItemDescription, Error> {
    match selected(items.len(), presented) {
        Ok(i) => Ok(items[i as int]),
        Err(e) => Err(e),
    }
}

// ---------------------------------------------------------------------------
// Functions
// ---------------------------------------------------------------------------

/// Tells whether the vault manager listed anything: a listing that is empty
/// but for white space means that there is no record to show.
pub fn check_item_listing(listing: &str) -> (r: Result<(), Error>)
    ensures
        r == if trimmed(listing@).len() == 0 {
            Err::<(), Error>(Error::NoItemsFound)
        } else {
            Ok::<(), Error>(())
        },
{
    let chars = chars_of(listing);
    let (a, b) = trim_bounds(&chars, 0, chars.len());
    proof {
        assert(chars@.subrange(0, chars.len() as int) =~= listing@);
    }
    if a == b {
        Err(Error::NoItemsFound)
    } else {
        Ok(())
    }
}

/// Writes the menu rows of `items`.
pub fn item_rows(items: &Vec<ItemDescription>) -> (rows: Vec<[String; 3]>)
    ensures
        rows.deep_view() == item_table(description_views(items@)),
{
    let ghost wanted = item_table(description_views(items@));
    let mut rows: Vec<[String; 3]> = Vec::new();
    let mut i: usize = 0;
    while i < items.len()
        invariant
            i <= items.len(),
            wanted == item_table(description_views(items@)),
            rows.len() == i,
            forall|k: int| 0 <= k < i ==> (#[trigger] rows@[k]).deep_view() == wanted[k],
        decreases items.len() - i,
    {
        let item = &items[i];
        let title = item.title.clone();
        let info = match &item.additional_information {
            Some(text) => text.clone(),
            None => String::new(),
        };
        let url = match &item.urls {
            Some(urls) => if urls.len() > 0 {
                urls[0].href.clone()
            } else {
                String::new()
            },
            None => String::new(),
        };
        let row = [title, info, url];
        rows.push(row);
        i += 1;
    }
    rows
}

/// Writes the menu for `items`, one line for each, in order. An empty list
/// has no menu.
pub fn item_lines(items: &Vec<ItemDescription>) -> (r: Result<Vec<String>, Error>)
    ensures
        match r {
            Ok(lines) => items.len() > 0 && lines.deep_view() == table(
                item_table(description_views(items@)),
            ),
            Err(e) => items.len() == 0 && e == Error::EmptyTable,
        },
{
    let rows = item_rows(items);
    proof {
        assert(rows.deep_view().len() == rows.len());
    }
    table_lines(&rows)
}

/// The record whose line the picker handed back.
pub fn select_item_description(items: Vec<ItemDescription>, presented: &Result<String, Error>) -> (r:
    Result<ItemDescription, Error>)
    ensures
        r == chosen(items@, result_text(*presented)),
{
    let rows = item_rows(&items);
    proof {
        assert(rows.deep_view().len() == rows.len());
    }
    match wofi_select_table(&rows, presented) {
        Err(e) => Err(e),
        Ok(i) => {
            let mut items = items;
            Ok(items.remove(i))
        },
    }
}

// ---------------------------------------------------------------------------
// Laws
// ---------------------------------------------------------------------------

/// The chosen record comes back: whichever line of the menu the picker hands
/// back, as written or trimmed, the record of that line is the one chosen.
pub proof fn lemma_choice_gives_item(items: Seq<ItemDescription>, i: int)
    requires
        0 <= i < items.len() <= usize::MAX,
    ensures
        chosen(items, Ok(table(item_table(description_views(items)))[i])) == Ok::<
            ItemDescription,
            Error,
        >(items[i]),
        chosen(items, Ok(trimmed(table(item_table(description_views(items)))[i]))) == Ok::<
            ItemDescription,
            Error,
        >(items[i]),
{
    lemma_round_trip(item_table(description_views(items)), i);
}

} // verus!
