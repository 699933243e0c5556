//! TOML documents, read through `toml`.

use serde::Deserialize;
use toml::de::DeValue;
use vstd::prelude::*;

use crate::text::same_text;

verus! {

/// A TOML value as it was parsed.
#[verifier::external_type_specification]
#[verifier::external_body]
pub struct ExTomlValue<'i>(toml::de::DeValue<'i>);

/// What a TOML value is, as far as a configuration uses it.
pub enum TomlItem<'i> {
    Text(String),
    /// The number, where it fits.
    Integer(Option<i64>),
    List(Vec<DeValue<'i>>),
    Table(Vec<(String, DeValue<'i>)>),
    Other,
}

/// A [`TomlItem`] with its texts as character sequences.
pub ghost enum TomlItemModel<'i> {
    Text(Seq<char>),
    Integer(Option<i64>),
    List(Seq<DeValue<'i>>),
    Table(Seq<(Seq<char>, DeValue<'i>)>),
    Other,
}

/// The members of a table with their names as character sequences.
pub open spec fn member_models<'i>(members: Seq<(String, DeValue<'i>)>) -> Seq<
    (Seq<char>, DeValue<'i>),
> {
    members.map_values(|member: (String, DeValue<'i>)| (member.0@, member.1))
}

impl<'i> View for TomlItem<'i> {
    type V = TomlItemModel<'i>;

    open spec fn view(&self) -> TomlItemModel<'i> {
        match *self {
            TomlItem::Text(text) => TomlItemModel::Text(text@),
            TomlItem::Integer(number) => TomlItemModel::Integer(number),
            TomlItem::List(values) => TomlItemModel::List(values@),
            TomlItem::Table(members) => TomlItemModel::Table(member_models(members@)),
            TomlItem::Other => TomlItemModel::Other,
        }
    }
}

/// What `toml::de::DeTable::parse` makes of a text: a table, or an error in words.
pub uninterp spec fn toml_document(contents: Seq<char>) -> Result<
    DeValue<'static>,
    Seq<char>,
>;

/// What a value is.
pub uninterp spec fn toml_item(value: DeValue<'_>) -> TomlItemModel<'_>;

/// Whether a value can be read to be thrown away.
pub uninterp spec fn toml_skips(value: DeValue<'_>) -> bool;

/// `toml::de::DeTable::parse`: reads a text as a TOML document, which is a table.
#[verifier::external_body]
pub(crate) fn parse_document<'i>(contents: &'i str) -> (result: Result<
    DeValue<'i>,
    String,
>)
    ensures
        match (result, toml_document(contents@)) {
            (Ok(table), Ok(expected)) => table == expected,
            (Err(error), Err(expected)) => error@ == expected,
            _ => false,
        },
{
    toml::de::DeTable::parse(contents)
        .map(|table| DeValue::Table(table.into_inner()))
        .map_err(|error| error.to_string())
}

/// The variants of `toml::de::DeValue`: a text, an integer with its digits as a number, an
/// array with its values in order, a table with its members in order, or another value.
#[verifier::external_body]
pub(crate) fn item_of<'i>(value: &DeValue<'i>) -> (item: TomlItem<'i>)
    ensures
        item@ == toml_item(*value),
{
    match value {
        DeValue::String(text) => TomlItem::Text(text.to_string()),
        DeValue::Integer(number) => TomlItem::Integer(
            i64::from_str_radix(number.as_str(), number.radix()).ok(),
        ),
        DeValue::Array(values) => TomlItem::List(
            values.iter().map(|value| value.get_ref().clone()).collect(),
        ),
        DeValue::Table(members) => TomlItem::Table(
            members.iter().map(
                |(name, value)| (name.get_ref().to_string(), value.get_ref().clone()),
            ).collect(),
        ),
        _ => TomlItem::Other,
    }
}

/// `serde::de::IgnoredAny` read from a value: whether it can be. A number that is out of the
/// range of every number type cannot, nor can a list or a table that holds one.
#[verifier::external_body]
pub(crate) fn skips(value: &DeValue<'_>) -> (skipped: bool)
    ensures
        skipped == toml_skips(*value),
{
    let value = toml::Spanned::new(0..0, value.clone());
    serde::de::IgnoredAny::deserialize(toml::de::ValueDeserializer::from(value)).is_ok()
}

/// The last member of a table with a name.
pub open spec fn named_member<'i>(
    members: Seq<(Seq<char>, DeValue<'i>)>,
    name: Seq<char>,
) -> Option<DeValue<'i>>
    decreases members.len(),
{
    if members.len() == 0 {
        None
    } else if members.last().0 == name {
        Some(members.last().1)
    } else {
        named_member(members.drop_last(), name)
    }
}

/// A field of a record. A table gives its fields by name, a list gives them in order.
pub open spec fn field<'i>(item: TomlItemModel<'i>, name: Seq<char>, position: nat) -> Option<
    DeValue<'i>,
> {
    match item {
        TomlItemModel::Table(members) => named_member(members, name),
        TomlItemModel::List(values) => if position < values.len() {
            Some(values[position as int])
        } else {
            None
        },
        _ => None,
    }
}

/// Whether every member of a table besides the named ones can be thrown away.
pub open spec fn rest_skips(item: TomlItemModel<'_>, first: Seq<char>, second: Seq<char>) -> bool {
    item matches TomlItemModel::Table(members) ==> forall|i: int|
        0 <= i < members.len() ==> (#[trigger] members[i]).0 == first || members[i].0 == second
            || toml_skips(members[i].1)
}

fn find_member<'a, 'i>(members: &'a Vec<(String, DeValue<'i>)>, name: &str) -> (found:
    Option<&'a DeValue<'i>>)
    ensures
        match found {
            Some(value) => named_member(member_models(members@), name@) == Some(*value),
            None => named_member(member_models(members@), name@) is None,
        },
{
    let ghost all = member_models(members@);
    let mut index: usize = members.len();
    assert(all.take(index as int) =~= all);
    while index > 0
        invariant
            index <= members@.len(),
            all == member_models(members@),
            named_member(all.take(index as int), name@) == named_member(all, name@),
        decreases index,
    {
        index -= 1;
        assert(all.take(index + 1).drop_last() =~= all.take(index as int));
        if same_text(members[index].0.as_str(), name) {
            return Some(&members[index].1);
        }
    }
    None
}

/// A field of a record.
pub(crate) fn find_field<'a, 'i>(item: &'a TomlItem<'i>, name: &str, position: usize) -> (found:
    Option<&'a DeValue<'i>>)
    ensures
        match found {
            Some(value) => field(item@, name@, position as nat) == Some(*value),
            None => field(item@, name@, position as nat) is None,
        },
{
    match item {
        TomlItem::Table(members) => find_member(members, name),
        TomlItem::List(values) => if position < values.len() {
            Some(&values[position])
        } else {
            None
        },
        _ => None,
    }
}

/// Whether every member of a table besides the named ones can be thrown away.
pub(crate) fn skips_rest(item: &TomlItem<'_>, first: &str, second: &str) -> (skipped: bool)
    ensures
        skipped == rest_skips(item@, first@, second@),
{
    let members = match item {
        TomlItem::Table(members) => members,
        _ => return true,
    };
    let ghost all = member_models(members@);
    let mut index: usize = 0;
    while index < members.len()
        invariant
            index <= members@.len(),
            all == member_models(members@),
            item@ == TomlItemModel::Table(all),
            forall|i: int|
                0 <= i < index ==> (#[trigger] all[i]).0 == first@ || all[i].0 == second@
                    || toml_skips(all[i].1),
        decreases members@.len() - index,
    {
        let name = members[index].0.as_str();
        assert(all[index as int] == (name@, members@[index as int].1));
        if !same_text(name, first) && !same_text(name, second) && !skips(&members[index].1) {
            proof {
                let listed = item@->Table_0;
                assert(listed == all);
                assert(listed[index as int].0 != first@ && listed[index as int].0 != second@);
                assert(!toml_skips(listed[index as int].1));
            }
            return false;
        }
        index += 1;
    }
    true
}

} // verus!
