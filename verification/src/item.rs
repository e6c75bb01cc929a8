//! Vault records and their fields: which fields are shown, in what order, and
//! what stands in the menu for each.
//!
//! A field is shown if it has a value: its one-time code where it has one,
//! its stored value otherwise. Fields are ranked by how sensitive they are,
//! and the menu shows a mask in place of a sensitive value. The value itself
//! is kept beside the mask: it is what a choice returns.

use crate::error::{result_text, Error};
use crate::text::{same_text, trimmed};
use crate::wofi::{decode, lemma_round_trip, menu, select_lines, selected};
use vstd::prelude::*;
use vstd::seq_lib::{group_filter_ensures, lemma_multiset_commutative, to_multiset_build};
use vstd::string::*;

verus! {

// ---------------------------------------------------------------------------
// Records
// ---------------------------------------------------------------------------

/// The prompt of the field menu.
pub const FIELD_PROMPT: &'static str = "📋 Copy field";

/// A record of the vault, as the vault manager reports it.
#[derive(Debug, Clone, PartialEq, Eq)]
pub struct Item {
    pub id: String,
    pub title: String,
    pub version: u32,
    pub vault: Vault,
    pub category: String,
    pub last_edited_by: String,
    pub created_at: String,
    pub updated_at: String,
    pub additional_information: Option<String>,
    pub urls: Option<Vec<Url>>,
    pub fields: Option<Vec<Field>>,
}

/// The vault that a record lies in.
#[derive(Debug, Clone, PartialEq, Eq)]
pub struct Vault {
    pub id: String,
    pub name: String,
}

/// An address stored with a record.
#[derive(Debug, Clone, PartialEq, Eq)]
pub struct Url {
    pub label: Option<String>,
    pub primary: Option<bool>,
    pub href: String,
}

/// One labeled datum of a record.
#[derive(Debug, Clone, PartialEq, Eq)]
pub struct Field {
    pub id: String,
    pub field_type: String,
    pub purpose: Option<String>,
    pub label: String,
    pub value: Option<String>,
    pub totp: Option<String>,
    pub reference: Option<String>,
    pub password_details: Option<PasswordDetails>,
}

/// What the vault manager says of a password.
#[derive(Debug, Clone, PartialEq, Eq)]
pub struct PasswordDetails {
    pub strength: Option<String>,
}

/// How sensitive a field is.
#[derive(Debug, Clone, Copy, PartialEq, Eq, Structural)]
pub enum Category {
    Password,
    OneTimePassword,
    Generic,
}

/// A field that has a value, ready for the menu. `value` is the true value,
/// never a mask.
#[derive(Debug, PartialEq, Eq)]
pub struct DisplayedField {
    pub label: String,
    pub value: String,
    pub category: Category,
}

impl Clone for DisplayedField {
    fn clone(&self) -> (r: Self)
        ensures
            r == *self,
    {
        DisplayedField {
            label: self.label.clone(),
            value: self.value.clone(),
            category: self.category,
        }
    }
}

// ---------------------------------------------------------------------------
// Model
// ---------------------------------------------------------------------------

/// A record as the classifier sees it.
pub struct ItemView {
    pub id: Seq<char>,
    pub title: Seq<char>,
    /// The fields of the record, in order; `None` where it has no list.
    pub fields: Option<Seq<FieldView>>,
}

/// A field as the classifier sees it.
pub struct FieldView {
    pub label: Seq<char>,
    /// The value to show and to copy; `None` for a field that has none.
    pub value: Option<Seq<char>>,
    pub category: Category,
}

/// A shown field as a mathematical value.
pub struct DisplayedFieldView {
    pub label: Seq<char>,
    pub value: Seq<char>,
    pub category: Category,
}

impl Field {
    /// The tag that tells the category: the purpose where the field has one,
    /// its type otherwise.
    pub open spec fn tag(self) -> Seq<char> {
        match self.purpose {
            Some(purpose) => purpose@,
            None => self.field_type@,
        }
    }
}

impl View for Field {
    type V = FieldView;

    /// The value is the one-time code where the field has one, its stored
    /// value otherwise.
    open spec fn view(&self) -> FieldView {
        FieldView {
            label: self.label@,
            value: match self.totp {
                Some(code) => Some(code@),
                None => match self.value {
                    Some(value) => Some(value@),
                    None => None,
                },
            },
            category: Category::of_tag(self.tag()),
        }
    }
}

impl View for Item {
    type V = ItemView;

    open spec fn view(&self) -> ItemView {
        ItemView {
            id: self.id@,
            title: self.title@,
            fields: match self.fields {
                Some(fields) => Some(field_views(fields@)),
                None => None,
            },
        }
    }
}

impl View for DisplayedField {
    type V = DisplayedFieldView;

    open spec fn view(&self) -> DisplayedFieldView {
        DisplayedFieldView { label: self.label@, value: self.value@, category: self.category }
    }
}

/// The fields of `fields` as mathematical values.
pub open spec fn field_views(fields: Seq<Field>) -> Seq<FieldView> {
    fields.map_values(|f: Field| f@)
}

/// The shown fields of `fields` as mathematical values.
pub open spec fn displayed_views(fields: Seq<DisplayedField>) -> Seq<DisplayedFieldView> {
    fields.map_values(|f: DisplayedField| f@)
}

impl Category {
    /// The rank in the menu: lower comes first.
    pub open spec fn priority(self) -> nat {
        match self {
            Category::Password => 0,
            Category::OneTimePassword => 1,
            Category::Generic => 2,
        }
    }

    /// The category that a tag of the vault manager stands for.
    pub open spec fn of_tag(tag: Seq<char>) -> Category {
        if tag == "password"@ || tag == "PASSWORD"@ {
            Category::Password
        } else if tag == "one-time-password"@ || tag == "OTP"@ || tag == "ONE_TIME_PASSWORD"@ {
            Category::OneTimePassword
        } else {
            Category::Generic
        }
    }

    /// What the menu shows for a value of this category: a mask of fixed
    /// length for a sensitive one, the value itself otherwise.
    pub open spec fn shown(self, value: Seq<char>) -> Seq<char> {
        match self {
            Category::Password => "********"@,
            Category::OneTimePassword => "******"@,
            Category::Generic => value,
        }
    }
}

/// What is shown of one field: nothing, where it has no value.
pub open spec fn displayed_one(field: FieldView) -> Option<DisplayedFieldView> {
    match field.value {
        Some(value) => Some(
            DisplayedFieldView { label: field.label, value, category: field.category },
        ),
        None => None,
    }
}

/// The fields that have a value, in their order.
pub open spec fn displayed(fields: Seq<FieldView>) -> Seq<DisplayedFieldView> {
    fields.filter_map(|f: FieldView| displayed_one(f))
}

/// `shown` is what is shown of one of `fields`: it carries the label, the
/// value and the category of a field that has a value.
pub open spec fn came_from(fields: Seq<FieldView>, shown: DisplayedFieldView) -> bool {
    exists|j: int| 0 <= j < fields.len() && displayed_one(#[trigger] fields[j]) == Some(shown)
}

/// The fields of priority `p`, in their order.
pub open spec fn with_priority(fields: Seq<DisplayedFieldView>, p: nat) -> Seq<
    DisplayedFieldView,
> {
    fields.filter(|f: DisplayedFieldView| f.category.priority() == p)
}

/// The fields in menu order: by priority, and within one priority in their
/// order.
pub open spec fn by_priority(fields: Seq<DisplayedFieldView>) -> Seq<DisplayedFieldView> {
    with_priority(fields, 0) + with_priority(fields, 1) + with_priority(fields, 2)
}

/// The priorities of `fields` never go down.
pub open spec fn ranked(fields: Seq<DisplayedFieldView>) -> bool {
    forall|a: int, b: int|
        0 <= a <= b < fields.len() ==> (#[trigger] fields[a]).category.priority() <= (
        #[trigger] fields[b]).category.priority()
}

/// `n` stars.
pub open spec fn stars(n: nat) -> Seq<char> {
    Seq::new(n, |i: int| '*')
}

/// The menu row of a field: its label, and its value or the mask for it.
pub open spec fn field_row(field: DisplayedFieldView) -> Seq<Seq<char>> {
    seq![field.label, field.category.shown(field.value)]
}

/// The menu rows of `fields`.
pub open spec fn field_table(fields: Seq<DisplayedFieldView>) -> Seq<Seq<Seq<char>>> {
    fields.map_values(|f: DisplayedFieldView| field_row(f))
}

/// The fields to show for a record's field list, in menu order.
pub open spec fn classified(fields: Option<Seq<FieldView>>) -> Result<
    Seq<DisplayedFieldView>,
    Error,
> {
    match fields {
        None => Err(Error::NoFieldsPresent),
        Some(fields) => if displayed(fields).len() == 0 {
            Err(Error::NoDisplayableFields)
        } else {
            Ok(by_priority(displayed(fields)))
        },
    }
}

/// The outcome of classifying, with the fields as mathematical values.
pub open spec fn classified_views(r: Result<Vec<DisplayedField>, Error>) -> Result<
    Seq<DisplayedFieldView>,
    Error,
> {
    match r {
        Ok(fields) => Ok(displayed_views(fields@)),
        Err(e) => Err(e),
    }
}

/// The value to copy, given the shown fields and what the picker run came to.
pub open spec fn copied(fields: Seq<DisplayedFieldView>, presented: Result<Seq<char>, Error>)
    -> Result<Seq<char>, Error> {
    if fields.len() == 0 {
        Err(Error::NoDisplayableFields)
    } else {
        match selected(fields.len(), presented) {
            Ok(i) => Ok(fields[i as int].value),
            Err(e) => Err(e),
        }
    }
}

// ---------------------------------------------------------------------------
// Laws
// ---------------------------------------------------------------------------

/// No shown field comes from a field without a value.
pub proof fn lemma_displayed_have_values(fields: Seq<FieldView>, k: int)
    requires
        0 <= k < displayed(fields).len(),
    ensures
        came_from(fields, displayed(fields)[k]),
{
    let shown = displayed(fields)[k];
    fields.lemma_filter_map_contains(|f: FieldView| displayed_one(f), shown);
}

/// Nothing is shown exactly where no field has a value.
pub proof fn lemma_displayed_empty(fields: Seq<FieldView>)
    ensures
        displayed(fields).len() == 0 <==> forall|j: int|
            0 <= j < fields.len() ==> (#[trigger] fields[j]).value is None,
    decreases fields.len(),
{
    if fields.len() > 0 {
        let rest = fields.drop_last();
        lemma_displayed_empty(rest);
        assert forall|j: int| 0 <= j < rest.len() implies rest[j] == fields[j] by {}
        if displayed(fields).len() == 0 {
            assert forall|j: int| 0 <= j < fields.len() implies (
            #[trigger] fields[j]).value is None by {}
        }
        if forall|j: int| 0 <= j < fields.len() ==> (#[trigger] fields[j]).value is None {
            assert forall|j: int| 0 <= j < rest.len() implies (
            #[trigger] rest[j]).value is None by {}
        }
    }
}

/// A sequence whose elements all pass a filter is left whole by it.
proof fn lemma_filter_all<A>(s: Seq<A>, pred: spec_fn(A) -> bool)
    requires
        forall|i: int| 0 <= i < s.len() ==> pred(#[trigger] s[i]),
    ensures
        s.filter(pred) == s,
    decreases s.len(),
{
    reveal(Seq::filter);
    if s.len() > 0 {
        lemma_filter_all(s.drop_last(), pred);
    }
}

/// A sequence none of whose elements passes a filter is emptied by it.
proof fn lemma_filter_none<A>(s: Seq<A>, pred: spec_fn(A) -> bool)
    requires
        forall|i: int| 0 <= i < s.len() ==> !pred(#[trigger] s[i]),
    ensures
        s.filter(pred) == Seq::<A>::empty(),
    decreases s.len(),
{
    reveal(Seq::filter);
    if s.len() > 0 {
        lemma_filter_none(s.drop_last(), pred);
    }
}

/// The fields of one priority, filtered for priority `q`: themselves where
/// `q` is that priority, none otherwise.
proof fn lemma_with_priority_twice(fields: Seq<DisplayedFieldView>, p: nat, q: nat)
    ensures
        with_priority(with_priority(fields, p), q) == if p == q {
            with_priority(fields, p)
        } else {
            Seq::<DisplayedFieldView>::empty()
        },
{
    let has_p = |f: DisplayedFieldView| f.category.priority() == p;
    let has_q = |f: DisplayedFieldView| f.category.priority() == q;
    let class = fields.filter(has_p);
    broadcast use group_filter_ensures;
    if p == q {
        lemma_filter_all(class, has_q);
    } else {
        lemma_filter_none(class, has_q);
    }
}

/// Every field lies in exactly one of the three priority classes.
proof fn lemma_priority_classes_len(fields: Seq<DisplayedFieldView>)
    ensures
        with_priority(fields, 0).len() + with_priority(fields, 1).len() + with_priority(
            fields,
            2,
        ).len() == fields.len(),
    decreases fields.len(),
{
    let has_0 = |f: DisplayedFieldView| f.category.priority() == 0nat;
    let has_1 = |f: DisplayedFieldView| f.category.priority() == 1nat;
    let has_2 = |f: DisplayedFieldView| f.category.priority() == 2nat;
    reveal(Seq::filter);
    if fields.len() > 0 {
        lemma_priority_classes_len(fields.drop_last());
        fields.drop_last().lemma_filter_push(fields.last(), has_0);
        fields.drop_last().lemma_filter_push(fields.last(), has_1);
        fields.drop_last().lemma_filter_push(fields.last(), has_2);
    }
}

/// Menu order is sorted and stable, and it keeps every field: priorities
/// never go down, the fields of each priority stand in the order they had,
/// and as many fields come out as went in.
pub proof fn lemma_by_priority(fields: Seq<DisplayedFieldView>)
    ensures
        ranked(by_priority(fields)),
        forall|p: nat| #[trigger] with_priority(by_priority(fields), p) == with_priority(fields, p),
        by_priority(fields).len() == fields.len(),
{
    let first = with_priority(fields, 0);
    let second = with_priority(fields, 1);
    let third = with_priority(fields, 2);
    let sorted = by_priority(fields);
    broadcast use group_filter_ensures;
    assert forall|a: int, b: int| 0 <= a <= b < sorted.len() implies (
    #[trigger] sorted[a]).category.priority() <= (#[trigger] sorted[b]).category.priority() by {}
    assert forall|p: nat| with_priority(sorted, p) == with_priority(fields, p) by {
        let has_p = |f: DisplayedFieldView| f.category.priority() == p;
        Seq::filter_distributes_over_add(first + second, third, has_p);
        Seq::filter_distributes_over_add(first, second, has_p);
        lemma_with_priority_twice(fields, 0, p);
        lemma_with_priority_twice(fields, 1, p);
        lemma_with_priority_twice(fields, 2, p);
        if p > 2 {
            lemma_filter_none(fields, has_p);
        }
    }
    lemma_priority_classes_len(fields);
}

/// A field that ranks after none of the fields before it stays last in menu
/// order.
proof fn lemma_by_priority_push(rest: Seq<DisplayedFieldView>, x: DisplayedFieldView)
    requires
        forall|i: int|
            0 <= i < rest.len() ==> (#[trigger] rest[i]).category.priority()
                <= x.category.priority(),
    ensures
        by_priority(rest.push(x)) == by_priority(rest).push(x),
{
    let has_0 = |f: DisplayedFieldView| f.category.priority() == 0nat;
    let has_1 = |f: DisplayedFieldView| f.category.priority() == 1nat;
    let has_2 = |f: DisplayedFieldView| f.category.priority() == 2nat;
    rest.lemma_filter_push(x, has_0);
    rest.lemma_filter_push(x, has_1);
    rest.lemma_filter_push(x, has_2);
    if x.category.priority() < 2 {
        lemma_filter_none(rest, has_2);
    }
    if x.category.priority() < 1 {
        lemma_filter_none(rest, has_1);
    }
    assert(by_priority(rest.push(x)) =~= by_priority(rest).push(x));
}

/// Every field of the list ranks after none of those before it.
#[verifier::opaque]
spec fn in_order(fields: Seq<DisplayedFieldView>) -> bool
    decreases fields.len(),
{
    fields.len() == 0 || (in_order(fields.drop_last()) && forall|i: int|
        0 <= i < fields.len() - 1 ==> (#[trigger] fields.drop_last()[i]).category.priority()
            <= fields.last().category.priority())
}

/// The list is in menu order already.
#[verifier::opaque]
spec fn settled(fields: Seq<DisplayedFieldView>) -> bool {
    by_priority(fields) == fields
}

/// A list is its fields but the last, followed by the last.
proof fn lemma_drop_last_push(fields: Seq<DisplayedFieldView>)
    requires
        fields.len() > 0,
    ensures
        fields.drop_last().push(fields.last()) == fields,
{
    assert(fields.drop_last().push(fields.last()) =~= fields);
}

/// A list whose priorities never go down has every field after none of those
/// before it.
proof fn lemma_ranked_in_order(fields: Seq<DisplayedFieldView>)
    requires
        ranked(fields),
    ensures
        in_order(fields),
    decreases fields.len(),
{
    reveal(in_order);
    if fields.len() > 0 {
        let rest = fields.drop_last();
        assert forall|a: int, b: int| 0 <= a <= b < rest.len() implies (
        #[trigger] rest[a]).category.priority() <= (#[trigger] rest[b]).category.priority() by {
            assert(rest[a] == fields[a] && rest[b] == fields[b]);
        }
        assert forall|i: int| 0 <= i < rest.len() implies (
        #[trigger] rest[i]).category.priority() <= fields.last().category.priority() by {
            assert(rest[i] == fields[i]);
            assert(fields.last() == fields[fields.len() - 1]);
        }
        lemma_ranked_in_order(rest);
    }
}

/// In a list in which every field ranks after none of those before it, the
/// last field stays last in menu order, and the others are such a list too.
proof fn lemma_in_order_step(fields: Seq<DisplayedFieldView>)
    requires
        in_order(fields),
        fields.len() > 0,
    ensures
        in_order(fields.drop_last()),
        by_priority(fields.drop_last().push(fields.last())) == by_priority(
            fields.drop_last(),
        ).push(fields.last()),
{
    reveal(in_order);
    lemma_by_priority_push(fields.drop_last(), fields.last());
}

/// A list in menu order stays in menu order when a field is added that stays
/// last.
proof fn lemma_settled_push(rest: Seq<DisplayedFieldView>, x: DisplayedFieldView)
    requires
        settled(rest),
        by_priority(rest.push(x)) == by_priority(rest).push(x),
    ensures
        settled(rest.push(x)),
{
    reveal(settled);
}

/// No fields are in menu order.
proof fn lemma_settled_empty(fields: Seq<DisplayedFieldView>)
    requires
        fields.len() == 0,
    ensures
        settled(fields),
{
    reveal(settled);
    reveal(Seq::filter);
    assert(by_priority(fields) =~= fields);
}

/// A list in which every field ranks after none of those before it is in menu
/// order.
proof fn lemma_in_order_settled(fields: Seq<DisplayedFieldView>)
    requires
        in_order(fields),
    ensures
        settled(fields),
    decreases fields.len(),
{
    if fields.len() == 0 {
        lemma_settled_empty(fields);
    } else {
        lemma_in_order_step(fields);
        lemma_in_order_settled(fields.drop_last());
        lemma_settled_push(fields.drop_last(), fields.last());
        lemma_drop_last_push(fields);
    }
}

/// A list whose priorities never go down is in menu order already: it is
/// left as it is.
pub proof fn lemma_by_priority_of_ranked(fields: Seq<DisplayedFieldView>)
    requires
        ranked(fields),
    ensures
        by_priority(fields) == fields,
{
    lemma_ranked_in_order(fields);
    lemma_in_order_settled(fields);
    reveal(settled);
}

/// Putting a list in menu order twice gives what doing it once gave.
pub proof fn lemma_by_priority_twice(fields: Seq<DisplayedFieldView>)
    ensures
        by_priority(by_priority(fields)) == by_priority(fields),
{
    lemma_by_priority(fields);
    lemma_by_priority_of_ranked(by_priority(fields));
}

/// Menu order neither drops a field nor shows one twice: it holds the same
/// fields, each as often as it was given.
pub proof fn lemma_by_priority_permutes(fields: Seq<DisplayedFieldView>)
    ensures
        by_priority(fields).to_multiset() == fields.to_multiset(),
    decreases fields.len(),
{
    let has_0 = |f: DisplayedFieldView| f.category.priority() == 0nat;
    let has_1 = |f: DisplayedFieldView| f.category.priority() == 1nat;
    let has_2 = |f: DisplayedFieldView| f.category.priority() == 2nat;
    if fields.len() == 0 {
        reveal(Seq::filter);
    } else {
        let rest = fields.drop_last();
        let x = fields.last();
        lemma_by_priority_permutes(rest);
        assert(rest.push(x) =~= fields);
        rest.lemma_filter_push(x, has_0);
        rest.lemma_filter_push(x, has_1);
        rest.lemma_filter_push(x, has_2);
        let a = with_priority(rest, 0);
        let b = with_priority(rest, 1);
        let c = with_priority(rest, 2);
        let a2 = with_priority(fields, 0);
        let b2 = with_priority(fields, 1);
        let c2 = with_priority(fields, 2);
        lemma_multiset_commutative(a, b);
        lemma_multiset_commutative(a + b, c);
        lemma_multiset_commutative(a2, b2);
        lemma_multiset_commutative(a2 + b2, c2);
        to_multiset_build(rest, x);
        to_multiset_build(a, x);
        to_multiset_build(b, x);
        to_multiset_build(c, x);
    }
}

/// What classifying a field list comes to. Where it gives fields, there is
/// at least one, each comes from a field that has a value, their priorities
/// never go down, and the fields of each priority stand in the order they
/// had. Where it gives none, no field has a value.
pub proof fn lemma_classified(fields: Seq<FieldView>)
    ensures
        match classified(Some(fields)) {
            Ok(shown) => {
                &&& shown.len() > 0
                &&& shown.len() == displayed(fields).len()
                &&& ranked(shown)
                &&& forall|p: nat| #[trigger]
                    with_priority(shown, p) == with_priority(displayed(fields), p)
                &&& forall|k: int| 0 <= k < shown.len() ==> came_from(fields, #[trigger] shown[k])
            },
            Err(e) => {
                &&& e == Error::NoDisplayableFields
                &&& forall|j: int| 0 <= j < fields.len() ==> (#[trigger] fields[j]).value is None
            },
        },
{
    let all = displayed(fields);
    lemma_displayed_empty(fields);
    if all.len() > 0 {
        let shown = by_priority(all);
        lemma_by_priority(all);
        assert forall|k: int| 0 <= k < shown.len() implies came_from(fields, #[trigger] shown[k]) by {
            let first = with_priority(all, 0);
            let second = with_priority(all, 1);
            if k < first.len() {
                all.lemma_filter_contains_rev(
                    |f: DisplayedFieldView| f.category.priority() == 0nat,
                    shown[k],
                );
            } else if k < first.len() + second.len() {
                all.lemma_filter_contains_rev(
                    |f: DisplayedFieldView| f.category.priority() == 1nat,
                    shown[k],
                );
            } else {
                all.lemma_filter_contains_rev(
                    |f: DisplayedFieldView| f.category.priority() == 2nat,
                    shown[k],
                );
            }
            let m = choose|m: int| 0 <= m < all.len() && all[m] == shown[k];
            lemma_displayed_have_values(fields, m);
        }
    }
}

/// A sensitive value never shows: the menu row of a password holds a mask of
/// eight stars, that of a one-time password a mask of six, whatever the
/// value is.
pub proof fn lemma_masked(field: DisplayedFieldView)
    ensures
        field.category == Category::Password ==> field_row(field)[1] == stars(8),
        field.category == Category::OneTimePassword ==> field_row(field)[1] == stars(6),
        field.category == Category::Generic ==> field_row(field)[1] == field.value,
{
    reveal_strlit("********");
    reveal_strlit("******");
}

/// The true value comes back: whichever line of the menu the picker hands
/// back, as written or trimmed, the value to copy is the value of the field
/// of that line, not what the line shows.
pub proof fn lemma_choice_gives_value(fields: Seq<DisplayedFieldView>, i: int)
    requires
        0 <= i < fields.len() <= usize::MAX,
    ensures
        copied(fields, Ok(menu(field_table(fields))[i])) == Ok::<Seq<char>, Error>(fields[i].value),
        copied(fields, Ok(trimmed(menu(field_table(fields))[i]))) == Ok::<
            Seq<char>,
            Error,
        >(fields[i].value),
{
    lemma_round_trip(field_table(fields), i);
}

// ---------------------------------------------------------------------------
// Functions
// ---------------------------------------------------------------------------

impl Category {
    /// The rank in the menu: lower comes first.
    pub fn rank(&self) -> (r: usize)
        ensures
            r == self.priority(),
    {
        match self {
            Category::Password => 0,
            Category::OneTimePassword => 1,
            Category::Generic => 2,
        }
    }

    /// The category that a tag of the vault manager stands for.
    pub fn from_tag(tag: &str) -> (r: Category)
        ensures
            r == Category::of_tag(tag@),
    {
        if same_text(tag, "password") || same_text(tag, "PASSWORD") {
            Category::Password
        } else if same_text(tag, "one-time-password") || same_text(tag, "OTP") || same_text(
            tag,
            "ONE_TIME_PASSWORD",
        ) {
            Category::OneTimePassword
        } else {
            Category::Generic
        }
    }

    /// What the menu shows for `value`.
    pub fn display(&self, value: &String) -> (r: String)
        ensures
            r@ == self.shown(value@),
    {
        match self {
            Category::Password => String::from_str("********"),
            Category::OneTimePassword => String::from_str("******"),
            Category::Generic => value.clone(),
        }
    }
}

impl Field {
    /// The category of this field.
    pub fn category(&self) -> (r: Category)
        ensures
            r == self@.category,
    {
        match &self.purpose {
            Some(purpose) => Category::from_tag(purpose.as_str()),
            None => Category::from_tag(self.field_type.as_str()),
        }
    }
}

/// Keeps the fields that have a value, each with its category.
pub fn get_displayed_fields(fields: Vec<Field>) -> (r: Vec<DisplayedField>)
    ensures
        displayed_views(r@) == displayed(field_views(fields@)),
{
    let ghost source = field_views(fields@);
    let mut shown: Vec<DisplayedField> = Vec::new();
    for field in it: fields
        invariant
            it.seq() == fields@,
            source == field_views(fields@),
            displayed_views(shown@) == displayed(source.take(it.index() as int)),
    {
        let ghost k = it.index() as int;
        proof {
            source.lemma_filter_map_take_succ(|f: FieldView| displayed_one(f), k);
        }
        let category = field.category();
        let Field { label, value, totp, .. } = field;
        match totp {
            Some(code) => {
                shown.push(DisplayedField { label, value: code, category });
            },
            None => match value {
                Some(value) => {
                    shown.push(DisplayedField { label, value, category });
                },
                None => {},
            },
        }
    }
    proof {
        assert(source.take(fields@.len() as int) =~= source);
    }
    shown
}

/// Adds to `out` the fields of `source` that have priority `p`, in their order.
fn push_with_priority(source: &Vec<DisplayedField>, p: usize, out: &mut Vec<DisplayedField>)
    ensures
        displayed_views(final(out)@) == displayed_views(old(out)@) + with_priority(
            displayed_views(source@),
            p as nat,
        ),
{
    let ghost all = displayed_views(source@);
    let ghost start = displayed_views(out@);
    let ghost wanted = |f: DisplayedFieldView| f.category.priority() == p as nat;
    let mut i: usize = 0;
    proof {
        reveal(Seq::filter);
    }
    while i < source.len()
        invariant
            i <= source.len(),
            all == displayed_views(source@),
            wanted == |f: DisplayedFieldView| f.category.priority() == p as nat,
            displayed_views(out@) == start + all.take(i as int).filter(wanted),
        decreases source.len() - i,
    {
        proof {
            assert(all.take(i + 1) =~= all.take(i as int).push(all[i as int]));
            all.take(i as int).lemma_filter_push(all[i as int], wanted);
        }
        if source[i].category.rank() == p {
            out.push(source[i].clone());
            proof {
                assert(start + all.take(i as int).filter(wanted).push(all[i as int]) =~= (start
                    + all.take(i as int).filter(wanted)).push(all[i as int]));
            }
        }
        i += 1;
    }
    proof {
        assert(all.take(source.len() as int) =~= all);
    }
}

/// Puts `fields` in menu order: passwords first, then one-time passwords,
/// then the rest. Fields of one priority keep their order.
pub fn sort_fields_by_priority(fields: &mut Vec<DisplayedField>)
    ensures
        displayed_views(final(fields)@) == by_priority(displayed_views(old(fields)@)),
        ranked(displayed_views(final(fields)@)),
        forall|p: nat|
            #[trigger] with_priority(displayed_views(final(fields)@), p) == with_priority(
                displayed_views(old(fields)@),
                p,
            ),
        displayed_views(final(fields)@).to_multiset() == displayed_views(old(fields)@).to_multiset(),
        final(fields).len() == old(fields).len(),
{
    let mut sorted: Vec<DisplayedField> = Vec::new();
    push_with_priority(fields, 0, &mut sorted);
    push_with_priority(fields, 1, &mut sorted);
    push_with_priority(fields, 2, &mut sorted);
    proof {
        let before = displayed_views(fields@);
        assert(displayed_views(sorted@) =~= by_priority(before));
        lemma_by_priority(before);
        lemma_by_priority_permutes(before);
    }
    *fields = sorted;
}

/// Writes the menu rows of `fields`: for each its label, and its value or the
/// mask that stands for it.
pub fn get_field_table(fields: &Vec<DisplayedField>) -> (r: Result<Vec<[String; 2]>, Error>)
    ensures
        match r {
            Ok(rows) => fields.len() > 0 && rows.deep_view() == field_table(
                displayed_views(fields@),
            ),
            Err(e) => fields.len() == 0 && e == Error::NoDisplayableFields,
        },
{
    if fields.len() == 0 {
        return Err(Error::NoDisplayableFields);
    }
    let ghost table = field_table(displayed_views(fields@));
    let mut rows: Vec<[String; 2]> = Vec::new();
    let mut i: usize = 0;
    while i < fields.len()
        invariant
            i <= fields.len(),
            table == field_table(displayed_views(fields@)),
            rows.len() == i,
            forall|k: int| 0 <= k < i ==> (#[trigger] rows@[k]).deep_view() == table[k],
        decreases fields.len() - i,
    {
        let label = fields[i].label.clone();
        let value = fields[i].category.display(&fields[i].value);
        let row = [label, value];
        rows.push(row);
        i += 1;
    }
    Ok(rows)
}

/// The fields to show for `item`, in menu order. A record without a field
/// list, and one without a field that has a value, have none.
pub fn classify(item: Item) -> (r: Result<Vec<DisplayedField>, Error>)
    ensures
        classified_views(r) == classified(item@.fields),
        r matches Ok(fields) ==> fields.len() > 0,
{
    match item.fields {
        None => Err(Error::NoFieldsPresent),
        Some(fields) => {
            let ghost source = field_views(fields@);
            let mut shown = get_displayed_fields(fields);
            if shown.len() == 0 {
                return Err(Error::NoDisplayableFields);
            }
            sort_fields_by_priority(&mut shown);
            proof {
                assert(displayed_views(shown@) == by_priority(displayed(source)));
            }
            Ok(shown)
        },
    }
}

/// Writes the menu for `fields`, one line for each, in order.
pub fn field_lines(fields: &Vec<DisplayedField>) -> (r: Result<Vec<String>, Error>)
    ensures
        match r {
            Ok(lines) => fields.len() > 0 && lines.deep_view() == menu(
                field_table(displayed_views(fields@)),
            ),
            Err(e) => fields.len() == 0 && e == Error::NoDisplayableFields,
        },
{
    match get_field_table(fields) {
        Err(e) => Err(e),
        Ok(rows) => {
            proof {
                assert(rows.deep_view().len() == rows.len());
            }
            select_lines(&rows)
        },
    }
}

/// The value to copy: the true value of the field whose line the picker
/// handed back.
pub fn select_field_to_copy(fields: Vec<DisplayedField>, presented: &Result<String, Error>) -> (r:
    Result<String, Error>)
    ensures
        result_text(r) == copied(displayed_views(fields@), result_text(*presented)),
{
    if fields.len() == 0 {
        return Err(Error::NoDisplayableFields);
    }
    let chosen = match presented {
        Err(e) => Err(*e),
        Ok(line) => decode(line.as_str(), fields.len()),
    };
    match chosen {
        Err(e) => Err(e),
        Ok(i) => {
            let mut fields = fields;
            let field = fields.remove(i);
            Ok(field.value)
        },
    }
}

} // verus!
