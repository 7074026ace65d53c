//! Which records of the Azure retail price list give the prices of a base size.
//!
//! The price list is asked for all records of a base size in one region.
//! Each record is then either skipped or taken as the pay-as-you-go price,
//! the Spot price, or the price of a one or three year reservation. Records
//! that contradict the query are faults.
use vstd::prelude::*;

use crate::az::pricing::retrieve::PriceOption;
use crate::cleanup_vm_name::{
    cleaned_names, cleaned_piece, lemma_cleaned_names_len, name_and_price_type, split_and_cleanup_name,
    split_price_type, VmPriceType,
};
use crate::patterns::{regex_finds_match, regex_is_match};
use crate::text::{
    contains, ends_with, has_infix, has_prefix, occurs_at, has_suffix, replace_char, replaced, same_text,
    starts_with, strip_prefix_or_self, strip_suffix, trim_start, trim_start_by, CharClass,
};

verus! {

/// The region whose prices are asked for.
pub const ARM_REGION_NAME: &'static str = "australiaeast";

/// The currency of the prices.
pub const CURRENCY_CODE: &'static str = "USD";

/// The product names of virtual machine prices.
pub const PRODUCT_NAME_PATTERN: &'static str = r"Virtual Machines \w+ Series";

/// What is done with one price record.
#[derive(Debug, Clone, Copy, PartialEq, Eq, Structural)]
pub enum PriceAction {
    /// The record is for another size.
    SkipOtherSize,
    /// The record is a Windows price.
    SkipWindows,
    /// The product is not a virtual machine series.
    SkipUnknownProduct,
    /// Low priority prices are not used.
    SkipLowPriority,
    /// The pay-as-you-go price for one hour.
    SetConsumption,
    /// The Spot price for one hour.
    SetSpot,
    /// The price of a one year reservation.
    SetOneYear,
    /// The price of a three year reservation.
    SetThreeYears,
    /// No rule takes the record; it is reported and not used.
    Unmatched,
}

/// How a record contradicts the query.
#[derive(Debug, Clone, Copy, PartialEq, Eq, Structural)]
pub enum OptionFault {
    /// The record's arm sku name is not the base size.
    ArmSku,
    /// The record is not in the currency of the prices.
    Currency,
    /// The record is not a price per hour.
    Unit,
    /// A Spot record whose meter name does not name its size.
    SpotMeter,
    /// A Low Priority record whose meter name does not name its size.
    LowPriorityMeter,
    /// The meter name names neither the sku name nor the base size.
    Meter,
    /// The cleaned sku name does not start with the cleaned base size.
    SizeName,
    /// The product name pattern does not compile.
    ProductPattern,
}

/// Why the prices of a base size cannot be found.
#[derive(Debug, Clone, Copy, PartialEq, Eq, Structural)]
pub enum PricingError {
    /// The price list has no record for the base size.
    NoPrices,
    /// Record `option` contradicts the query.
    BadOption { option: usize, fault: OptionFault },
    /// Record `option` is a second Spot price.
    SecondSpot { option: usize },
    /// Fewer than the three prices were found: pay-as-you-go, one and three years.
    TooFewPrices { found: usize },
}

// ---------------------------------------------------------------------------
// The base size and the query
// ---------------------------------------------------------------------------
/// The base size of a group (the last of its base sizes) and its cleaned
/// name; `None` when the group has no base size or the last does not start
/// with `Standard_`.
pub open spec fn base_and_guess(skus: Seq<Seq<char>>) -> Option<(Seq<char>, Seq<char>)> {
    if skus.len() == 0 || !has_prefix(skus.last(), "Standard_"@) {
        None
    } else {
        Some((skus.last(), cleaned_names(skus.last())[0]))
    }
}

/// The base size whose prices are asked for, the last of the group's base
/// sizes, and the size name that the price records use for it: without
/// `Standard_` and with spaces for `_`. There must be base sizes, and the
/// last must start with `Standard_`.
pub fn flex_base_sku(flex_base_sku_vec: &Vec<String>) -> (r: (String, String))
    requires
        base_and_guess(flex_base_sku_vec.deep_view()) is Some,
    ensures
        base_and_guess(flex_base_sku_vec.deep_view()) == Some((r.0@, r.1@)),
{
    let n = flex_base_sku_vec.len();
    let base: &str = flex_base_sku_vec[n - 1].as_str();
    assert(flex_base_sku_vec.deep_view().last() == base@);
    let names = split_and_cleanup_name(base);
    proof {
        lemma_cleaned_names_len(base@);
        assert(names.deep_view().len() == names.len());
        assert(names.deep_view()[0] == names@[0]@);
    }
    let guess = names[0].as_str().to_owned();
    (base.to_owned(), guess)
}

/// The text of the query before it is put on one line.
pub open spec fn query_text(region: Seq<char>, sku: Seq<char>) -> Seq<char> {
    "\n        az rest --method get\n        --url \"https://prices.azure.com/api/retail/prices?$filter=armRegionName eq '"@
        + region + "' and armSkuName eq '"@ + sku + "'\"\n        --output json\n        "@
}

/// The `az` command line that asks the price list for the records of `sku` in
/// `region`: the query text without its leading white space and its line
/// breaks.
pub open spec fn pricing_query(region: Seq<char>, sku: Seq<char>) -> Seq<char> {
    replaced(trim_start_by(query_text(region, sku), CharClass::WhiteSpace), '\n', ""@)
}

/// The `az` command line that asks the price list for the records of a base
/// size in a region.
pub fn pricing_query_command(arm_region_name: &str, flex_base_sku_name: &str) -> (r: String)
    ensures
        r@ == pricing_query(arm_region_name@, flex_base_sku_name@),
{
    let mut text = "\n        az rest --method get\n        --url \"https://prices.azure.com/api/retail/prices?$filter=armRegionName eq '".to_owned();
    text.append(arm_region_name);
    text.append("' and armSkuName eq '");
    text.append(flex_base_sku_name);
    text.append("'\"\n        --output json\n        ");
    let one_line = replace_char(trim_start(text.as_str()), '\n', "");
    one_line
}

// ---------------------------------------------------------------------------
// One record
// ---------------------------------------------------------------------------
/// A meter name that names the size of a record tagged with `tag` (the Spot or
/// Low Priority label): both names end in the tag, and the meter name without
/// it holds the cleaned sku name without it.
pub open spec fn tagged_meter_ok(sku: Seq<char>, meter: Seq<char>, tag: Seq<char>) -> bool {
    &&& has_suffix(sku, tag)
    &&& has_suffix(meter, tag)
    &&& has_infix(
        meter.take(meter.len() - tag.len()),
        cleaned_piece(sku.take(sku.len() - tag.len())),
    )
}

/// Whether the meter name of a record fits its sku name, `None` if it does,
/// else the fault.
pub open spec fn meter_fault(o: PriceOption, guess: Seq<char>) -> Option<OptionFault> {
    let sku = o.sku_name@;
    let meter = o.meter_name@;
    if has_infix(meter, " Spot"@) && has_infix(sku, " Spot"@) {
        if tagged_meter_ok(sku, meter, " Spot"@) {
            None
        } else {
            Some(OptionFault::SpotMeter)
        }
    } else if has_infix(meter, " Low Priority"@) && has_infix(sku, " Low Priority"@) {
        if tagged_meter_ok(sku, meter, " Low Priority"@) {
            None
        } else {
            Some(OptionFault::LowPriorityMeter)
        }
    } else if has_infix(meter, sku) || has_infix(meter, guess) {
        None
    } else {
        Some(OptionFault::Meter)
    }
}

/// The size name of a record, cleaned as the base size is.
pub open spec fn record_size_name(o: PriceOption) -> Seq<char> {
    cleaned_names(name_and_price_type(o.sku_name@, o.product_name@, o.type_bill@).0)[0]
}

/// The kind of price of a record.
pub open spec fn record_price_type(o: PriceOption) -> VmPriceType {
    name_and_price_type(o.sku_name@, o.product_name@, o.type_bill@).1
}

/// Which price a record of a virtual machine series gives, by its billing
/// type, reservation term, size name and kind of price.
pub open spec fn billing_action(o: PriceOption, guess: Seq<char>) -> PriceAction {
    let name = record_size_name(o);
    let ty = record_price_type(o);
    if o.type_bill@ == "Consumption"@ && o.reservation_term is None {
        if ty == VmPriceType::Normal && name == guess {
            PriceAction::SetConsumption
        } else if ty == VmPriceType::Spot {
            PriceAction::SetSpot
        } else if ty == VmPriceType::LowPriority {
            PriceAction::SkipLowPriority
        } else {
            PriceAction::Unmatched
        }
    } else if o.type_bill@ == "Reservation"@ && o.reservation_term is Some && ty
        == VmPriceType::Normal && name == guess {
        if o.reservation_term->0@ == "1 Year"@ {
            PriceAction::SetOneYear
        } else if o.reservation_term->0@ == "3 Years"@ {
            PriceAction::SetThreeYears
        } else {
            PriceAction::Unmatched
        }
    } else {
        PriceAction::Unmatched
    }
}

/// What is done with one record, for the base size `base` whose cleaned name
/// is `guess`. The checks come in this order: other sizes are skipped; the
/// record must be for the base size, in the currency, per hour, with a fitting
/// meter name and size name; Windows prices and products that are no virtual
/// machine series are skipped; then the billing decides.
pub open spec fn option_outcome(o: PriceOption, base: Seq<char>, guess: Seq<char>) -> Result<
    PriceAction,
    OptionFault,
> {
    if o.sku_name@ != base && record_size_name(o) != guess {
        Ok(PriceAction::SkipOtherSize)
    } else if o.arm_sku_name@ != base {
        Err(OptionFault::ArmSku)
    } else if o.currency_code@ != CURRENCY_CODE@ {
        Err(OptionFault::Currency)
    } else if o.unit_of_measure@ != "1 Hour"@ {
        Err(OptionFault::Unit)
    } else if meter_fault(o, guess) is Some {
        Err(meter_fault(o, guess)->0)
    } else if !has_prefix(cleaned_piece(o.sku_name@), guess) {
        Err(OptionFault::SizeName)
    } else if has_suffix(o.product_name@, "Windows"@) {
        Ok(PriceAction::SkipWindows)
    } else {
        match regex_finds_match(PRODUCT_NAME_PATTERN@, o.product_name@) {
            None => Err(OptionFault::ProductPattern),
            Some(false) => Ok(PriceAction::SkipUnknownProduct),
            Some(true) => Ok(billing_action(o, guess)),
        }
    }
}

fn tagged_meter_matches(sku: &str, meter: &str, tag: &str) -> (b: bool)
    ensures
        b == tagged_meter_ok(sku@, meter@, tag@),
{
    match strip_suffix(sku, tag) {
        None => false,
        Some(sn) => {
            let sn = strip_prefix_or_self(sn, "Standard_");
            let sn = replace_char(sn, '_', " ");
            match strip_suffix(meter, tag) {
                None => false,
                Some(mn) => contains(mn, sn.as_str()),
            }
        },
    }
}

fn meter_check(o: &PriceOption, guess: &str) -> (r: Option<OptionFault>)
    ensures
        r == meter_fault(*o, guess@),
{
    let sku = o.sku_name.as_str();
    let meter = o.meter_name.as_str();
    if contains(meter, " Spot") && contains(sku, " Spot") {
        if tagged_meter_matches(sku, meter, " Spot") {
            None
        } else {
            Some(OptionFault::SpotMeter)
        }
    } else if contains(meter, " Low Priority") && contains(sku, " Low Priority") {
        if tagged_meter_matches(sku, meter, " Low Priority") {
            None
        } else {
            Some(OptionFault::LowPriorityMeter)
        }
    } else if contains(meter, sku) || contains(meter, guess) {
        None
    } else {
        Some(OptionFault::Meter)
    }
}

fn billing(o: &PriceOption, name: &str, ty: VmPriceType, guess: &str) -> (r: PriceAction)
    requires
        name@ == record_size_name(*o),
        ty == record_price_type(*o),
    ensures
        r == billing_action(*o, guess@),
{
    let bill = o.type_bill.as_str();
    let is_guess = same_text(name, guess);
    if same_text(bill, "Consumption") && o.reservation_term.is_none() {
        if ty == VmPriceType::Normal && is_guess {
            PriceAction::SetConsumption
        } else if ty == VmPriceType::Spot {
            PriceAction::SetSpot
        } else if ty == VmPriceType::LowPriority {
            PriceAction::SkipLowPriority
        } else {
            PriceAction::Unmatched
        }
    } else if same_text(bill, "Reservation") && o.reservation_term.is_some() && ty
        == VmPriceType::Normal && is_guess {
        match &o.reservation_term {
            Some(term) => {
                if same_text(term.as_str(), "1 Year") {
                    PriceAction::SetOneYear
                } else if same_text(term.as_str(), "3 Years") {
                    PriceAction::SetThreeYears
                } else {
                    PriceAction::Unmatched
                }
            },
            None => PriceAction::Unmatched,
        }
    } else {
        PriceAction::Unmatched
    }
}

/// What is done with the price record `price_option`, for the base size
/// `flex_base_sku_name` whose cleaned name is `guess_sku_name`.
pub fn price_option_action(price_option: &PriceOption, flex_base_sku_name: &str, guess_sku_name: &str) -> (r:
    Result<PriceAction, OptionFault>)
    ensures
        r == option_outcome(*price_option, flex_base_sku_name@, guess_sku_name@),
{
    let (po_sku_name, po_sku_name_type) = split_price_type(price_option);
    let names = split_and_cleanup_name(po_sku_name.as_str());
    proof {
        lemma_cleaned_names_len(po_sku_name@);
        assert(names.deep_view().len() == names.len());
        assert(names.deep_view()[0] == names@[0]@);
    }
    let po_sku_name_guess: &str = names[0].as_str();
    let sku = price_option.sku_name.as_str();
    if !same_text(sku, flex_base_sku_name) && !same_text(po_sku_name_guess, guess_sku_name) {
        return Ok(PriceAction::SkipOtherSize);
    }
    if !same_text(price_option.arm_sku_name.as_str(), flex_base_sku_name) {
        return Err(OptionFault::ArmSku);
    }
    if !same_text(price_option.currency_code.as_str(), CURRENCY_CODE) {
        return Err(OptionFault::Currency);
    }
    if !same_text(price_option.unit_of_measure.as_str(), "1 Hour") {
        return Err(OptionFault::Unit);
    }
    if let Some(fault) = meter_check(price_option, guess_sku_name) {
        return Err(fault);
    }
    let po_sn = replace_char(strip_prefix_or_self(sku, "Standard_"), '_', " ");
    if !starts_with(po_sn.as_str(), guess_sku_name) {
        return Err(OptionFault::SizeName);
    }
    if ends_with(price_option.product_name.as_str(), "Windows") {
        return Ok(PriceAction::SkipWindows);
    }
    match regex_is_match(PRODUCT_NAME_PATTERN, price_option.product_name.as_str()) {
        None => Err(OptionFault::ProductPattern),
        Some(false) => Ok(PriceAction::SkipUnknownProduct),
        Some(true) => Ok(billing(price_option, po_sku_name_guess, po_sku_name_type, guess_sku_name)),
    }
}

// ---------------------------------------------------------------------------
// All records
// ---------------------------------------------------------------------------
/// The actions for the first `k` records, and whether a Spot price was among
/// them; or the error of the first record at fault. A second Spot price is
/// a fault.
pub open spec fn actions_upto(opts: Seq<PriceOption>, base: Seq<char>, guess: Seq<char>, k: int) -> Result<
    (Seq<PriceAction>, bool),
    PricingError,
>
    decreases k,
{
    if k <= 0 {
        Ok((Seq::empty(), false))
    } else {
        match actions_upto(opts, base, guess, k - 1) {
            Err(e) => Err(e),
            Ok((acts, spot)) => match option_outcome(opts[k - 1], base, guess) {
                Err(f) => Err(PricingError::BadOption { option: (k - 1) as usize, fault: f }),
                Ok(a) => if a == PriceAction::SetSpot && spot {
                    Err(PricingError::SecondSpot { option: (k - 1) as usize })
                } else {
                    Ok((acts.push(a), spot || a == PriceAction::SetSpot))
                },
            },
        }
    }
}

/// The action counts towards the three prices that must be found.
pub open spec fn is_counted(a: PriceAction) -> bool {
    a == PriceAction::SetConsumption || a == PriceAction::SetOneYear || a
        == PriceAction::SetThreeYears
}

pub open spec fn counted(acts: Seq<PriceAction>) -> nat
    decreases acts.len(),
{
    if acts.len() == 0 {
        0
    } else {
        counted(acts.drop_last()) + if is_counted(acts.last()) {
            1nat
        } else {
            0nat
        }
    }
}

pub open spec fn spot_count(acts: Seq<PriceAction>) -> nat
    decreases acts.len(),
{
    if acts.len() == 0 {
        0
    } else {
        spot_count(acts.drop_last()) + if acts.last() == PriceAction::SetSpot {
            1nat
        } else {
            0nat
        }
    }
}

/// The actions for all records: there must be records, none at fault, and
/// at least three counted prices.
pub open spec fn price_actions(opts: Seq<PriceOption>, base: Seq<char>, guess: Seq<char>) -> Result<
    Seq<PriceAction>,
    PricingError,
> {
    if opts.len() == 0 {
        Err(PricingError::NoPrices)
    } else {
        match actions_upto(opts, base, guess, opts.len() as int) {
            Err(e) => Err(e),
            Ok((acts, _)) => if counted(acts) < 3 {
                Err(PricingError::TooFewPrices { found: counted(acts) as usize })
            } else {
                Ok(acts)
            },
        }
    }
}

proof fn lemma_actions_error_stays(
    opts: Seq<PriceOption>,
    base: Seq<char>,
    guess: Seq<char>,
    k: int,
    m: int,
)
    requires
        0 <= k <= m,
        actions_upto(opts, base, guess, k) is Err,
    ensures
        actions_upto(opts, base, guess, m) == actions_upto(opts, base, guess, k),
    decreases m - k,
{
    if m > k {
        lemma_actions_error_stays(opts, base, guess, k, m - 1);
    }
}

proof fn lemma_counted_bound(acts: Seq<PriceAction>)
    ensures
        counted(acts) <= acts.len(),
    decreases acts.len(),
{
    if acts.len() > 0 {
        lemma_counted_bound(acts.drop_last());
    }
}

/// Decides for every price record of a base size what is done with it, or
/// finds the first fault: a record at fault, a second Spot price, no records,
/// or fewer than three of the pay-as-you-go, one year and three year prices.
fn try_price_actions(
    price_options: &Vec<PriceOption>,
    flex_base_sku_name: &str,
    guess_sku_name: &str,
) -> (r: Result<Vec<PriceAction>, PricingError>)
    ensures
        match (r, price_actions(price_options@, flex_base_sku_name@, guess_sku_name@)) {
            (Ok(acts), Ok(a)) => acts@ == a,
            (Err(e), Err(f)) => e == f,
            _ => false,
        },
{
    let ghost opts = price_options@;
    let ghost base = flex_base_sku_name@;
    let ghost guess = guess_sku_name@;
    let n = price_options.len();
    if n == 0 {
        return Err(PricingError::NoPrices);
    }
    let mut acts: Vec<PriceAction> = Vec::new();
    let mut spot_found = false;
    let mut num_found: usize = 0;
    let mut i: usize = 0;
    while i < n
        invariant
            n == opts.len(),
            opts == price_options@,
            base == flex_base_sku_name@,
            guess == guess_sku_name@,
            i <= n,
            acts@.len() == i,
            actions_upto(opts, base, guess, i as int) == Ok::<_, PricingError>((acts@, spot_found)),
            num_found == counted(acts@),
        decreases n - i,
    {
        let action = match price_option_action(&price_options[i], flex_base_sku_name, guess_sku_name) {
            Ok(a) => a,
            Err(fault) => {
                proof {
                    lemma_actions_error_stays(opts, base, guess, i + 1, n as int);
                }
                return Err(PricingError::BadOption { option: i, fault });
            },
        };
        if action == PriceAction::SetSpot {
            if spot_found {
                proof {
                    lemma_actions_error_stays(opts, base, guess, i + 1, n as int);
                }
                return Err(PricingError::SecondSpot { option: i });
            }
            spot_found = true;
        }
        proof {
            lemma_counted_bound(acts@);
        }
        if action == PriceAction::SetConsumption || action == PriceAction::SetOneYear || action
            == PriceAction::SetThreeYears {
            num_found = num_found + 1;
        }
        let ghost before = acts@;
        acts.push(action);
        assert(acts@.drop_last() =~= before);
        i = i + 1;
    }
    if num_found < 3 {
        return Err(PricingError::TooFewPrices { found: num_found });
    }
    Ok(acts)
}

/// What is wrong with the price records of a base size, if anything: the
/// first record at fault, or a second Spot price, or no records, or fewer than
/// three of the pay-as-you-go, one year and three year prices.
pub fn price_actions_fault(
    price_options: &Vec<PriceOption>,
    flex_base_sku_name: &str,
    guess_sku_name: &str,
) -> (r: Option<PricingError>)
    ensures
        match price_actions(price_options@, flex_base_sku_name@, guess_sku_name@) {
            Ok(_) => r is None,
            Err(e) => r == Some(e),
        },
{
    match try_price_actions(price_options, flex_base_sku_name, guess_sku_name) {
        Ok(_) => None,
        Err(e) => Some(e),
    }
}

/// Decides for every price record of a base size what is done with it. The
/// records are taken in order; none may be at fault, at most one may give a
/// Spot price, and at least three must give the pay-as-you-go, one year or
/// three year price.
pub fn choose_price_actions(
    price_options: &Vec<PriceOption>,
    flex_base_sku_name: &str,
    guess_sku_name: &str,
) -> (r: Vec<PriceAction>)
    requires
        price_actions(price_options@, flex_base_sku_name@, guess_sku_name@) is Ok,
    ensures
        price_actions(price_options@, flex_base_sku_name@, guess_sku_name@) == Ok::<_, PricingError>(r@),
{
    match try_price_actions(price_options, flex_base_sku_name, guess_sku_name) {
        Ok(acts) => acts,
        Err(_) => {
            assert(false);
            Vec::new()
        },
    }
}

// ---------------------------------------------------------------------------
// Laws
// ---------------------------------------------------------------------------
proof fn lemma_spot_flag(opts: Seq<PriceOption>, base: Seq<char>, guess: Seq<char>, k: int)
    requires
        0 <= k,
        actions_upto(opts, base, guess, k) is Ok,
    ensures
        ({
            let (acts, spot) = actions_upto(opts, base, guess, k)->Ok_0;
            &&& spot_count(acts) <= 1
            &&& spot <==> spot_count(acts) == 1
            &&& acts.len() == k
        }),
    decreases k,
{
    if k > 0 {
        lemma_spot_flag(opts, base, guess, k - 1);
        let (acts, spot) = actions_upto(opts, base, guess, k)->Ok_0;
        let (prev, _) = actions_upto(opts, base, guess, k - 1)->Ok_0;
        assert(acts.drop_last() =~= prev);
    }
}

/// When the prices of a base size are found, there is one action per record,
/// at least three records give the pay-as-you-go, one year or three year
/// price, and at most one gives a Spot price.
pub proof fn lemma_found_prices(opts: Seq<PriceOption>, base: Seq<char>, guess: Seq<char>)
    requires
        price_actions(opts, base, guess) is Ok,
    ensures
        price_actions(opts, base, guess)->Ok_0.len() == opts.len(),
        counted(price_actions(opts, base, guess)->Ok_0) >= 3,
        spot_count(price_actions(opts, base, guess)->Ok_0) <= 1,
{
    lemma_spot_flag(opts, base, guess, opts.len() as int);
}

/// The record is a Windows price: its product name ends in `Windows`.
pub open spec fn is_windows_record(o: PriceOption) -> bool {
    has_suffix(o.product_name@, "Windows"@)
}

/// The action sets one of the prices: pay-as-you-go, Spot, one or three years.
pub open spec fn sets_price(a: PriceAction) -> bool {
    is_counted(a) || a == PriceAction::SetSpot
}

/// A Windows price record never sets a price: unless it is at fault, it is
/// skipped, as a record of another size or as a Windows price.
pub proof fn lemma_windows_record_sets_no_price(o: PriceOption, base: Seq<char>, guess: Seq<char>)
    requires
        is_windows_record(o),
    ensures
        option_outcome(o, base, guess) matches Ok(a) ==> a == PriceAction::SkipOtherSize || a
            == PriceAction::SkipWindows,
        option_outcome(o, base, guess) matches Ok(a) ==> !sets_price(a),
{
}

proof fn lemma_actions_are_outcomes(opts: Seq<PriceOption>, base: Seq<char>, guess: Seq<char>, k: int)
    requires
        0 <= k <= opts.len(),
        actions_upto(opts, base, guess, k) is Ok,
    ensures
        actions_upto(opts, base, guess, k)->Ok_0.0.len() == k,
        forall|i: int|
            0 <= i < k ==> option_outcome(#[trigger] opts[i], base, guess) == Ok::<
                PriceAction,
                OptionFault,
            >(actions_upto(opts, base, guess, k)->Ok_0.0[i]),
    decreases k,
{
    if k > 0 {
        lemma_actions_are_outcomes(opts, base, guess, k - 1);
    }
}

/// When the prices of a base size are found, no Windows record sets a price.
pub proof fn lemma_found_prices_skip_windows(opts: Seq<PriceOption>, base: Seq<char>, guess: Seq<char>)
    requires
        price_actions(opts, base, guess) is Ok,
    ensures
        forall|i: int|
            0 <= i < opts.len() && is_windows_record(#[trigger] opts[i]) ==> !sets_price(
                price_actions(opts, base, guess)->Ok_0[i],
            ),
{
    lemma_actions_are_outcomes(opts, base, guess, opts.len() as int);
    assert forall|i: int|
        0 <= i < opts.len() && is_windows_record(#[trigger] opts[i]) implies !sets_price(
        price_actions(opts, base, guess)->Ok_0[i],
    ) by {
        lemma_windows_record_sets_no_price(opts[i], base, guess);
    }
}

proof fn lemma_same_prefix(o1: Seq<PriceOption>, o2: Seq<PriceOption>, base: Seq<char>, guess: Seq<char>, j: int)
    requires
        0 <= j <= o1.len(),
        j <= o2.len(),
        forall|i: int| 0 <= i < j ==> o1[i] == o2[i],
    ensures
        actions_upto(o1, base, guess, j) == actions_upto(o2, base, guess, j),
    decreases j,
{
    if j > 0 {
        lemma_same_prefix(o1, o2, base, guess, j - 1);
    }
}

proof fn lemma_counted_insert(acts: Seq<PriceAction>, k: int, a: PriceAction)
    requires
        0 <= k <= acts.len(),
        !is_counted(a),
    ensures
        counted(acts.insert(k, a)) == counted(acts),
    decreases acts.len(),
{
    let ins = acts.insert(k, a);
    if k == acts.len() {
        assert(ins.drop_last() =~= acts);
    } else {
        lemma_counted_insert(acts.drop_last(), k, a);
        assert(ins.drop_last() =~= acts.drop_last().insert(k, a));
        assert(ins.last() == acts.last());
    }
}

proof fn lemma_actions_after_insert(
    opts: Seq<PriceOption>,
    w: PriceOption,
    k: int,
    base: Seq<char>,
    guess: Seq<char>,
    j: int,
)
    requires
        0 <= k <= j <= opts.len(),
        option_outcome(w, base, guess) is Ok,
        option_outcome(w, base, guess)->Ok_0 != PriceAction::SetSpot,
    ensures
        actions_upto(opts.insert(k, w), base, guess, j + 1) is Ok <==> actions_upto(
            opts,
            base,
            guess,
            j,
        ) is Ok,
        actions_upto(opts, base, guess, j) is Ok ==> actions_upto(opts.insert(k, w), base, guess, j + 1)
            == Ok::<_, PricingError>(
            (
                actions_upto(opts, base, guess, j)->Ok_0.0.insert(
                    k,
                    option_outcome(w, base, guess)->Ok_0,
                ),
                actions_upto(opts, base, guess, j)->Ok_0.1,
            ),
        ),
    decreases j,
{
    let o2 = opts.insert(k, w);
    let aw = option_outcome(w, base, guess)->Ok_0;
    if j == k {
        lemma_same_prefix(opts, o2, base, guess, k);
        assert(o2[k] == w);
        if actions_upto(opts, base, guess, k) is Ok {
            lemma_spot_flag(opts, base, guess, k);
            let acts = actions_upto(opts, base, guess, k)->Ok_0.0;
            assert(acts.insert(k, aw) =~= acts.push(aw));
        }
    } else {
        lemma_actions_after_insert(opts, w, k, base, guess, j - 1);
        assert(o2[j] == opts[j - 1]);
        if actions_upto(opts, base, guess, j) is Ok {
            lemma_spot_flag(opts, base, guess, j - 1);
            let acts = actions_upto(opts, base, guess, j - 1)->Ok_0.0;
            let a = option_outcome(opts[j - 1], base, guess)->Ok_0;
            assert(acts.push(a).insert(k, aw) =~= acts.insert(k, aw).push(a));
        }
    }
}

/// Adding a Windows price record that is not at fault, at any place in the
/// price list, changes neither whether the prices of the base size are found
/// nor the price that any other record sets: the actions are those of the
/// list without it, with a skip for the new record at its place.
pub proof fn lemma_windows_record_changes_no_price(
    opts: Seq<PriceOption>,
    w: PriceOption,
    k: int,
    base: Seq<char>,
    guess: Seq<char>,
)
    requires
        is_windows_record(w),
        option_outcome(w, base, guess) is Ok,
        0 <= k <= opts.len(),
    ensures
        price_actions(opts.insert(k, w), base, guess) is Ok <==> price_actions(opts, base, guess) is Ok,
        price_actions(opts, base, guess) is Ok ==> price_actions(opts.insert(k, w), base, guess)->Ok_0
            == price_actions(opts, base, guess)->Ok_0.insert(k, option_outcome(w, base, guess)->Ok_0),
{
    lemma_windows_record_sets_no_price(w, base, guess);
    let o2 = opts.insert(k, w);
    let aw = option_outcome(w, base, guess)->Ok_0;
    let n = opts.len() as int;
    lemma_actions_after_insert(opts, w, k, base, guess, n);
    assert(o2.len() == n + 1);
    if actions_upto(opts, base, guess, n) is Ok {
        lemma_spot_flag(opts, base, guess, n);
        lemma_counted_insert(actions_upto(opts, base, guess, n)->Ok_0.0, k, aw);
        if n == 0 {
            assert(actions_upto(opts, base, guess, 0)->Ok_0.0 =~= Seq::<PriceAction>::empty());
        }
    }
}

/// The records that are not Windows prices, in order.
pub open spec fn without_windows(opts: Seq<PriceOption>) -> Seq<PriceOption>
    decreases opts.len(),
{
    if opts.len() == 0 {
        Seq::empty()
    } else if is_windows_record(opts.last()) {
        without_windows(opts.drop_last())
    } else {
        without_windows(opts.drop_last()).push(opts.last())
    }
}

/// The records that set a price, each with its action, in order.
pub open spec fn price_settings(opts: Seq<PriceOption>, acts: Seq<PriceAction>) -> Seq<
    (PriceOption, PriceAction),
>
    decreases opts.len(),
{
    if opts.len() == 0 || acts.len() == 0 {
        Seq::empty()
    } else if sets_price(acts.last()) {
        price_settings(opts.drop_last(), acts.drop_last()).push((opts.last(), acts.last()))
    } else {
        price_settings(opts.drop_last(), acts.drop_last())
    }
}

/// No Windows record among `opts` is at fault.
pub open spec fn windows_records_sound(opts: Seq<PriceOption>, base: Seq<char>, guess: Seq<char>) -> bool {
    forall|i: int|
        0 <= i < opts.len() && is_windows_record(#[trigger] opts[i]) ==> option_outcome(
            opts[i],
            base,
            guess,
        ) is Ok
}

proof fn lemma_without_windows_insert(opts: Seq<PriceOption>, k: int, w: PriceOption)
    requires
        0 <= k <= opts.len(),
        is_windows_record(w),
    ensures
        without_windows(opts.insert(k, w)) == without_windows(opts),
    decreases opts.len(),
{
    let ins = opts.insert(k, w);
    if k == opts.len() {
        assert(ins.drop_last() =~= opts);
    } else {
        lemma_without_windows_insert(opts.drop_last(), k, w);
        assert(ins.drop_last() =~= opts.drop_last().insert(k, w));
        assert(ins.last() == opts.last());
    }
}

proof fn lemma_price_settings_insert(
    opts: Seq<PriceOption>,
    acts: Seq<PriceAction>,
    k: int,
    w: PriceOption,
    a: PriceAction,
)
    requires
        0 <= k <= opts.len(),
        opts.len() == acts.len(),
        !sets_price(a),
    ensures
        price_settings(opts.insert(k, w), acts.insert(k, a)) == price_settings(opts, acts),
    decreases opts.len(),
{
    let io = opts.insert(k, w);
    let ia = acts.insert(k, a);
    if k == opts.len() {
        assert(io.drop_last() =~= opts);
        assert(ia.drop_last() =~= acts);
    } else {
        lemma_price_settings_insert(opts.drop_last(), acts.drop_last(), k, w, a);
        assert(io.drop_last() =~= opts.drop_last().insert(k, w));
        assert(ia.drop_last() =~= acts.drop_last().insert(k, a));
        assert(io.last() == opts.last());
        assert(ia.last() == acts.last());
    }
}

proof fn lemma_no_windows_fixed(opts: Seq<PriceOption>)
    requires
        forall|i: int| 0 <= i < opts.len() ==> !is_windows_record(#[trigger] opts[i]),
    ensures
        without_windows(opts) == opts,
    decreases opts.len(),
{
    if opts.len() > 0 {
        assert(!is_windows_record(opts[opts.len() - 1]));
        lemma_no_windows_fixed(opts.drop_last());
        assert(opts.drop_last().push(opts.last()) =~= opts);
    }
}

proof fn lemma_to_without_windows(opts: Seq<PriceOption>, base: Seq<char>, guess: Seq<char>)
    requires
        windows_records_sound(opts, base, guess),
    ensures
        price_actions(opts, base, guess) is Ok <==> price_actions(without_windows(opts), base, guess) is Ok,
        price_actions(opts, base, guess) is Ok ==> price_settings(opts, price_actions(opts, base, guess)->Ok_0)
            == price_settings(
            without_windows(opts),
            price_actions(without_windows(opts), base, guess)->Ok_0,
        ),
    decreases opts.len(),
{
    if exists|k: int| 0 <= k < opts.len() && is_windows_record(#[trigger] opts[k]) {
        let k = choose|k: int| 0 <= k < opts.len() && is_windows_record(#[trigger] opts[k]);
        let w = opts[k];
        let rest = opts.remove(k);
        assert(rest.insert(k, w) =~= opts);
        assert forall|i: int| 0 <= i < rest.len() && is_windows_record(#[trigger] rest[i]) implies option_outcome(
            rest[i],
            base,
            guess,
        ) is Ok by {
            if i < k {
                assert(rest[i] == opts[i]);
            } else {
                assert(rest[i] == opts[i + 1]);
            }
        }
        lemma_to_without_windows(rest, base, guess);
        lemma_windows_record_changes_no_price(rest, w, k, base, guess);
        lemma_without_windows_insert(rest, k, w);
        if price_actions(rest, base, guess) is Ok {
            lemma_found_prices(rest, base, guess);
            lemma_windows_record_sets_no_price(w, base, guess);
            lemma_price_settings_insert(
                rest,
                price_actions(rest, base, guess)->Ok_0,
                k,
                w,
                option_outcome(w, base, guess)->Ok_0,
            );
        }
    } else {
        lemma_no_windows_fixed(opts);
    }
}

/// Two price lists that differ only by Windows price records, none of them at
/// fault, added or removed anywhere, give the same outcome: the prices of
/// the base size are found from both or from neither, and the records that
/// set a price, with the price each sets, are the same and in the same order.
pub proof fn lemma_windows_records_change_no_prices(
    opts1: Seq<PriceOption>,
    opts2: Seq<PriceOption>,
    base: Seq<char>,
    guess: Seq<char>,
)
    requires
        windows_records_sound(opts1, base, guess),
        windows_records_sound(opts2, base, guess),
        without_windows(opts1) == without_windows(opts2),
    ensures
        price_actions(opts1, base, guess) is Ok <==> price_actions(opts2, base, guess) is Ok,
        price_actions(opts1, base, guess) is Ok ==> price_settings(
            opts1,
            price_actions(opts1, base, guess)->Ok_0,
        ) == price_settings(opts2, price_actions(opts2, base, guess)->Ok_0),
{
    lemma_to_without_windows(opts1, base, guess);
    lemma_to_without_windows(opts2, base, guess);
}

/// The action sets the pay-as-you-go, the one year or the three year price.
pub open spec fn sets_required_price(a: PriceAction) -> bool {
    a == PriceAction::SetConsumption || a == PriceAction::SetOneYear || a == PriceAction::SetThreeYears
}

proof fn lemma_counted_is_required_prices(acts: Seq<PriceAction>)
    ensures
        counted(acts) == acts.filter(|a: PriceAction| sets_required_price(a)).len(),
    decreases acts.len(),
{
    reveal_with_fuel(Seq::filter, 1);
    if acts.len() > 0 {
        lemma_counted_is_required_prices(acts.drop_last());
    }
}

/// When the prices of a base size are found, at least three records set the
/// pay-as-you-go, the one year or the three year price; a Spot price is not
/// one of them.
pub proof fn lemma_three_required_prices(opts: Seq<PriceOption>, base: Seq<char>, guess: Seq<char>)
    requires
        price_actions(opts, base, guess) is Ok,
    ensures
        price_actions(opts, base, guess)->Ok_0.filter(
            |a: PriceAction|
                a == PriceAction::SetConsumption || a == PriceAction::SetOneYear || a
                    == PriceAction::SetThreeYears,
        ).len() >= 3,
{
    let acts = price_actions(opts, base, guess)->Ok_0;
    lemma_counted_is_required_prices(acts);
    let named = |a: PriceAction| sets_required_price(a);
    let spelled = |a: PriceAction|
        a == PriceAction::SetConsumption || a == PriceAction::SetOneYear || a
            == PriceAction::SetThreeYears;
    assert(named =~= spelled);
    assert(acts.filter(named) == acts.filter(spelled));
}

/// A record whose meter name holds its sku name, or the cleaned base size,
/// anywhere (here at position `at`) is never refused for its meter name: a
/// meter naming several sizes, such as `D11 v2/DS11 v2`, fits the sku
/// `DS11 v2`.
pub proof fn lemma_meter_holding_the_size_fits(o: PriceOption, base: Seq<char>, guess: Seq<char>, at: int)
    requires
        0 <= at,
        ({
            let meter = o.meter_name@;
            let sku = o.sku_name@;
            ||| at + sku.len() <= meter.len() && meter.subrange(at, at + sku.len()) == sku
            ||| at + guess.len() <= meter.len() && meter.subrange(at, at + guess.len()) == guess
        }),
    ensures
        option_outcome(o, base, guess) != Err::<PriceAction, OptionFault>(OptionFault::Meter),
{
    let meter = o.meter_name@;
    let sku = o.sku_name@;
    if at + sku.len() <= meter.len() && meter.subrange(at, at + sku.len()) == sku {
        assert(occurs_at(meter, sku, at));
    } else {
        assert(occurs_at(meter, guess, at));
    }
}

} // verus!
