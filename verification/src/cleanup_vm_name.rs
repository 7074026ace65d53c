//! Names of virtual machine sizes as the price list and the size tables spell them.
use vstd::prelude::*;

use crate::az::pricing::retrieve::PriceOption;
use crate::text::{
    lacks, lemma_replaced_lacks, lemma_split_pieces_lack, lemma_without_prefix_lacks, count_char, ends_with, has_suffix, lemma_split_len, replace_char, replaced, same_text, split_at_char,
    split_char, strip_prefix_or_self, strip_suffix, trim, trimmed, without_prefix,
};

verus! {

/// A size name together with the kind of price a record is for.
#[derive(Debug, PartialEq, Eq)]
pub struct VmNameAndPrice {
    pub name: String,
    pub price_type: VmPriceType,
}

/// The kinds of price the price list has for one size.
#[derive(Debug, Clone, Copy, PartialEq, Eq, Structural)]
pub enum VmPriceType {
    Spot,
    SpotWindows,
    LowPriority,
    LowPriorityWindows,
    DevTest,
    DevTestWindows,
    Normal,
    NormalWindows,
}

/// The label of each kind; the price list appends the labels of `Spot` and
/// `LowPriority` to the size name.
pub open spec fn price_type_label(t: VmPriceType) -> Seq<char> {
    match t {
        VmPriceType::Spot => "Spot"@,
        VmPriceType::SpotWindows => "Spot Windows"@,
        VmPriceType::LowPriority => "Low Priority"@,
        VmPriceType::LowPriorityWindows => "Low Priority Windows"@,
        VmPriceType::DevTest => "DevTest"@,
        VmPriceType::DevTestWindows => "DevTestWindows"@,
        VmPriceType::Normal => ""@,
        VmPriceType::NormalWindows => "Windows"@,
    }
}

/// The Windows variant of a kind when `windows` holds, else the kind itself.
pub open spec fn with_windows(base: VmPriceType, windows: bool) -> VmPriceType {
    if !windows {
        base
    } else {
        match base {
            VmPriceType::Spot => VmPriceType::SpotWindows,
            VmPriceType::LowPriority => VmPriceType::LowPriorityWindows,
            VmPriceType::DevTest => VmPriceType::DevTestWindows,
            VmPriceType::Normal => VmPriceType::NormalWindows,
            other => other,
        }
    }
}

pub open spec fn is_windows_type(t: VmPriceType) -> bool {
    ||| t == VmPriceType::SpotWindows
    ||| t == VmPriceType::LowPriorityWindows
    ||| t == VmPriceType::DevTestWindows
    ||| t == VmPriceType::NormalWindows
}

/// The size name and price kind of a record with the given sku name, product
/// name and billing type.
pub open spec fn name_and_price_type(sku: Seq<char>, product: Seq<char>, bill: Seq<char>) -> (
    Seq<char>,
    VmPriceType,
) {
    let windows = has_suffix(product, "Windows"@);
    if bill == "DevTestConsumption"@ {
        (trimmed(sku), with_windows(VmPriceType::DevTest, windows))
    } else if has_suffix(sku, price_type_label(VmPriceType::Spot)) {
        (
            trimmed(sku.take(sku.len() - price_type_label(VmPriceType::Spot).len())),
            with_windows(VmPriceType::Spot, windows),
        )
    } else if has_suffix(sku, price_type_label(VmPriceType::LowPriority)) {
        (
            trimmed(sku.take(sku.len() - price_type_label(VmPriceType::LowPriority).len())),
            with_windows(VmPriceType::LowPriority, windows),
        )
    } else {
        (sku, with_windows(VmPriceType::Normal, windows))
    }
}

/// One piece of a size name: without the `Standard_` prefix, `_` read as a space.
pub open spec fn cleaned_piece(p: Seq<char>) -> Seq<char> {
    replaced(without_prefix(p, "Standard_"@), '_', " "@)
}

/// The cleaned pieces of a `/`-separated list of size names.
pub open spec fn cleaned_names(s: Seq<char>) -> Seq<Seq<char>> {
    split_at_char(s, '/').map_values(|p: Seq<char>| cleaned_piece(p))
}

impl VmPriceType {
    pub fn to_str(&self) -> (r: &str)
        ensures
            r@ == price_type_label(*self),
    {
        match self {
            VmPriceType::Spot => "Spot",
            VmPriceType::SpotWindows => "Spot Windows",
            VmPriceType::LowPriority => "Low Priority",
            VmPriceType::LowPriorityWindows => "Low Priority Windows",
            VmPriceType::DevTest => "DevTest",
            VmPriceType::DevTestWindows => "DevTestWindows",
            VmPriceType::Normal => "",
            VmPriceType::NormalWindows => "Windows",
        }
    }
}

fn windows_variant(base: VmPriceType, windows: bool) -> (r: VmPriceType)
    ensures
        r == with_windows(base, windows),
{
    if !windows {
        base
    } else {
        match base {
            VmPriceType::Spot => VmPriceType::SpotWindows,
            VmPriceType::LowPriority => VmPriceType::LowPriorityWindows,
            VmPriceType::DevTest => VmPriceType::DevTestWindows,
            VmPriceType::Normal => VmPriceType::NormalWindows,
            other => other,
        }
    }
}

/// The size name of a price record and the kind of price it is for: a
/// `DevTestConsumption` record is a DevTest price, a sku name that ends in the
/// Spot or Low Priority label is such a price (the label is cut off), and
/// any other record is a normal price; the Windows variant is taken when the
/// product name ends in `Windows`.
pub fn split_price_type(price_option: &PriceOption) -> (r: (String, VmPriceType))
    ensures
        (r.0@, r.1) == name_and_price_type(
            price_option.sku_name@,
            price_option.product_name@,
            price_option.type_bill@,
        ),
{
    let name_in = price_option.sku_name.as_str();
    let flag_windows = ends_with(price_option.product_name.as_str(), "Windows");
    if same_text(price_option.type_bill.as_str(), "DevTestConsumption") {
        let price_type = windows_variant(VmPriceType::DevTest, flag_windows);
        (trim(name_in).to_owned(), price_type)
    } else if let Some(name) = strip_suffix(name_in, VmPriceType::Spot.to_str()) {
        let price_type = windows_variant(VmPriceType::Spot, flag_windows);
        (trim(name).to_owned(), price_type)
    } else if let Some(name) = strip_suffix(name_in, VmPriceType::LowPriority.to_str()) {
        let price_type = windows_variant(VmPriceType::LowPriority, flag_windows);
        (trim(name).to_owned(), price_type)
    } else {
        let price_type = windows_variant(VmPriceType::Normal, flag_windows);
        (name_in.to_owned(), price_type)
    }
}

/// The `/`-separated size names of `name_in`, each without a leading
/// `Standard_` and with `_` replaced by a space.
pub fn split_and_cleanup_name(name_in: &str) -> (r: Vec<String>)
    ensures
        r.deep_view() == cleaned_names(name_in@),
{
    let pieces = split_char(name_in, '/');
    let mut out: Vec<String> = Vec::new();
    let mut i: usize = 0;
    while i < pieces.len()
        invariant
            pieces.deep_view() == split_at_char(name_in@, '/'),
            i <= pieces.len(),
            out.deep_view() =~= pieces.deep_view().take(i as int).map_values(
                |p: Seq<char>| cleaned_piece(p),
            ),
        decreases pieces.len() - i,
    {
        let piece: &str = pieces[i];
        let stripped = strip_prefix_or_self(piece, "Standard_");
        let cleaned = replace_char(stripped, '_', " ");
        let ghost before = out.deep_view();
        out.push(cleaned);
        proof {
            assert(pieces.deep_view()[i as int] == piece@);
            assert(out.deep_view() =~= before.push(cleaned_piece(piece@)));
            assert(pieces.deep_view().take(i + 1).map_values(|p: Seq<char>| cleaned_piece(p))
                =~= pieces.deep_view().take(i as int).map_values(|p: Seq<char>| cleaned_piece(p)).push(
                cleaned_piece(piece@),
            ));
        }
        i = i + 1;
    }
    assert(pieces.deep_view().take(pieces.len() as int) =~= pieces.deep_view());
    out
}

/// A split size name always has at least one piece: one more than the
/// number of `/` in it.
pub proof fn lemma_cleaned_names_len(s: Seq<char>)
    ensures
        cleaned_names(s).len() == count_char(s, '/') + 1,
        cleaned_names(s).len() >= 1,
{
    lemma_split_len(s, '/');
}

/// A cleaned size name holds neither `/` nor `_`.
pub proof fn lemma_cleaned_names_plain(s: Seq<char>)
    ensures
        forall|k: int|
            0 <= k < cleaned_names(s).len() ==> lacks(#[trigger] cleaned_names(s)[k], '/') && lacks(
                cleaned_names(s)[k],
                '_',
            ),
{
    reveal_strlit(" ");
    lemma_split_pieces_lack(s, '/');
    assert forall|k: int| 0 <= k < cleaned_names(s).len() implies lacks(
        #[trigger] cleaned_names(s)[k],
        '/',
    ) && lacks(cleaned_names(s)[k], '_') by {
        let piece = split_at_char(s, '/')[k];
        assert(lacks(piece, '/'));
        lemma_without_prefix_lacks(piece, "Standard_"@, '/');
        let stripped = without_prefix(piece, "Standard_"@);
        lemma_replaced_lacks(stripped, '_', " "@, '/');
        lemma_replaced_lacks(stripped, '_', " "@, '_');
        assert(cleaned_names(s)[k] == cleaned_piece(piece));
    }
}

} // verus!
