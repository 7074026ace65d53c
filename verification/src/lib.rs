//! Azure virtual machine inventory: flex groups, price options and summaries.
use vstd::prelude::*;

pub mod az;
pub mod cleanup_vm_name;
pub mod cmd;
pub mod filter_keys;
pub mod json_text;
pub mod numbers;
pub mod patterns;
pub mod pricing_data;
pub mod read_csv;
pub mod sorting;
pub mod text;

use crate::az::vmlist::{FlexLookUp, VirtualMachines, VM};
use crate::numbers::{is_float_literal, is_float_text};
use crate::read_csv::{
    base_rows, flex_groups_of, lemma_flex_groups_are_base_rows, rows_view, CsvRow, FlexGroups,
};
use crate::sorting::{is_sorted_text, sorted_strings};
use crate::text::{contains, has_infix, occurs_at, replace_char, replaced, same_text};

verus! {

/// A CSV field as written: quoted, with its quotes doubled, when it holds a
/// comma or a double quote, else as it is.
pub open spec fn escaped_csv_field(s: Seq<char>) -> Seq<char> {
    if has_infix(s, ","@) || has_infix(s, "\""@) {
        "\""@ + replaced(s, '"', "\"\""@) + "\""@
    } else {
        s
    }
}

/// Every `""` read as one `"`, scanning from the end.
pub open spec fn collapse_quotes(s: Seq<char>) -> Seq<char>
    decreases s.len(),
{
    if s.len() >= 2 && s.last() == '"' && s[s.len() - 2] == '"' {
        collapse_quotes(s.take(s.len() - 2)).push('"')
    } else if s.len() >= 1 {
        collapse_quotes(s.drop_last()).push(s.last())
    } else {
        Seq::empty()
    }
}

/// How a CSV reader reads a field back: a field in double quotes loses them
/// and has each `""` read as `"`.
pub open spec fn unescaped_csv_field(f: Seq<char>) -> Seq<char> {
    if f.len() >= 2 && f[0] == '"' && f.last() == '"' {
        collapse_quotes(f.subrange(1, f.len() - 1))
    } else {
        f
    }
}

/// Writes `input` as one CSV field: a field holding a comma or a double quote
/// is enclosed in double quotes and has its double quotes doubled.
pub fn escape_csv_field(input: &str) -> (r: String)
    ensures
        r@ == escaped_csv_field(input@),
{
    if contains(input, ",") || contains(input, "\"") {
        let escaped = replace_char(input, '"', "\"\"");
        let mut out = "\"".to_owned();
        out.append(escaped.as_str());
        out.append("\"");
        out
    } else {
        input.to_owned()
    }
}

proof fn lemma_collapse_doubled(s: Seq<char>)
    ensures
        collapse_quotes(replaced(s, '"', seq!['"', '"'])) == s,
    decreases s.len(),
{
    if s.len() > 0 {
        let prev = replaced(s.drop_last(), '"', seq!['"', '"']);
        let all = replaced(s, '"', seq!['"', '"']);
        lemma_collapse_doubled(s.drop_last());
        if s.last() == '"' {
            assert(all =~= prev + seq!['"', '"']);
            assert(all.take(all.len() - 2) =~= prev);
        } else {
            assert(all =~= prev + seq![s.last()]);
            assert(all.drop_last() =~= prev);
        }
        assert(s =~= s.drop_last().push(s.last()));
    }
}

/// A field written by `escape_csv_field` reads back as the input.
pub proof fn lemma_escape_csv_field_reads_back(s: Seq<char>)
    ensures
        unescaped_csv_field(escaped_csv_field(s)) == s,
{
    reveal_strlit("\"");
    reveal_strlit("\"\"");
    reveal_strlit(",");
    assert("\""@ =~= seq!['"']);
    assert("\"\""@ =~= seq!['"', '"']);
    if has_infix(s, ","@) || has_infix(s, "\""@) {
        let inner = replaced(s, '"', "\"\""@);
        let f = "\""@ + inner + "\""@;
        assert(f.subrange(1, f.len() - 1) =~= inner);
        lemma_collapse_doubled(s);
    } else {
        if s.len() >= 2 && s[0] == '"' {
            assert(s.subrange(0, 1) =~= "\""@);
            assert(occurs_at(s, "\""@, 0));
        }
    }
}

// ---------------------------------------------------------------------------
// Flex groups of the virtual machines
// ---------------------------------------------------------------------------
/// Why a virtual machine cannot be given its flex group. `vm` is its position.
#[derive(Debug, Clone, Copy, PartialEq, Eq, Structural)]
pub enum EnrichError {
    /// The size of the machine is in no row of the table.
    UnknownVmSize { vm: usize },
    /// The group of the machine's size has no base size in the table.
    NoBaseSizes { vm: usize },
}

/// The position of the first row of size `sku`, or -1.
pub open spec fn first_row_index(rows: Seq<(Seq<char>, Seq<char>, Seq<char>)>, sku: Seq<char>) -> int
    decreases rows.len(),
{
    if rows.len() == 0 {
        -1
    } else {
        let p = first_row_index(rows.drop_last(), sku);
        if p >= 0 {
            p
        } else if rows.last().1 == sku {
            rows.len() - 1
        } else {
            -1
        }
    }
}

proof fn lemma_first_row_index(rows: Seq<(Seq<char>, Seq<char>, Seq<char>)>, sku: Seq<char>, k: int)
    requires
        0 <= k <= rows.len(),
        forall|j: int| 0 <= j < k ==> (#[trigger] rows[j]).1 != sku,
        k < rows.len() ==> rows[k].1 == sku,
    ensures
        first_row_index(rows, sku) == if k < rows.len() {
            k
        } else {
            -1
        },
    decreases rows.len(),
{
    if rows.len() > 0 {
        if k < rows.len() - 1 {
            lemma_first_row_index(rows.drop_last(), sku, k);
        } else {
            assert forall|j: int| 0 <= j < rows.len() - 1 implies (#[trigger] rows.drop_last()[j]).1
                != sku by {
                assert(rows.drop_last()[j] == rows[j]);
            }
            lemma_first_row_index(rows.drop_last(), sku, rows.len() - 1);
        }
    }
}

/// What is missing for a size to be looked up.
#[derive(Debug, Clone, Copy, PartialEq, Eq, Structural)]
pub enum LookupMiss {
    UnknownSize,
    NoBaseSizes,
}

/// The flex group of size `sku`: from its first row, with the base sizes of
/// the row's group.
pub open spec fn flex_lookup_of(
    rows: Seq<(Seq<char>, Seq<char>, Seq<char>)>,
    groups: Map<Seq<char>, Seq<Seq<char>>>,
    sku: Seq<char>,
) -> Result<(Seq<char>, Seq<char>, Seq<char>, Seq<Seq<char>>), LookupMiss> {
    let k = first_row_index(rows, sku);
    if k < 0 {
        Err(LookupMiss::UnknownSize)
    } else if !groups.contains_key(rows[k].0) {
        Err(LookupMiss::NoBaseSizes)
    } else {
        Ok((rows[k].0, rows[k].1, rows[k].2, groups[rows[k].0]))
    }
}

/// The error for the first of the first `upto` machines that cannot be given
/// its flex group, if there is one.
pub open spec fn enrich_outcome(
    vms: Seq<VM>,
    rows: Seq<(Seq<char>, Seq<char>, Seq<char>)>,
    groups: Map<Seq<char>, Seq<Seq<char>>>,
    upto: int,
) -> Result<(), EnrichError>
    decreases upto,
{
    if upto <= 0 {
        Ok(())
    } else {
        match enrich_outcome(vms, rows, groups, upto - 1) {
            Err(e) => Err(e),
            Ok(()) => match flex_lookup_of(rows, groups, vms[upto - 1].vm_size@) {
                Ok(_) => Ok(()),
                Err(LookupMiss::UnknownSize) => Err(EnrichError::UnknownVmSize { vm: (upto - 1) as usize }),
                Err(LookupMiss::NoBaseSizes) => Err(EnrichError::NoBaseSizes { vm: (upto - 1) as usize }),
            },
        }
    }
}

proof fn lemma_enrich_error_stays(
    vms: Seq<VM>,
    rows: Seq<(Seq<char>, Seq<char>, Seq<char>)>,
    groups: Map<Seq<char>, Seq<Seq<char>>>,
    k: int,
    m: int,
)
    requires
        0 <= k <= m,
        enrich_outcome(vms, rows, groups, k) is Err,
    ensures
        enrich_outcome(vms, rows, groups, m) == enrich_outcome(vms, rows, groups, k),
    decreases m - k,
{
    if m > k {
        lemma_enrich_error_stays(vms, rows, groups, k, m - 1);
    }
}

proof fn lemma_enrich_ok_prefix(
    vms: Seq<VM>,
    rows: Seq<(Seq<char>, Seq<char>, Seq<char>)>,
    groups: Map<Seq<char>, Seq<Seq<char>>>,
    i: int,
    m: int,
)
    requires
        0 <= i < m,
        enrich_outcome(vms, rows, groups, m) is Ok,
    ensures
        flex_lookup_of(rows, groups, vms[i].vm_size@) is Ok,
    decreases m - i,
{
    if m > i + 1 {
        lemma_enrich_ok_prefix(vms, rows, groups, i, m - 1);
    }
}

/// Copies of the strings of `v`.
fn copy_strings(v: &Vec<String>) -> (r: Vec<String>)
    ensures
        r.deep_view() == v.deep_view(),
{
    let mut out: Vec<String> = Vec::new();
    let mut i: usize = 0;
    while i < v.len()
        invariant
            i <= v.len(),
            out.deep_view() =~= v.deep_view().take(i as int),
        decreases v.len() - i,
    {
        let ghost before = out.deep_view();
        out.push(v[i].as_str().to_owned());
        assert(v.deep_view()[i as int] == v@[i as int]@);
        assert(out.deep_view() =~= before.push(v@[i as int]@));
        assert(out.deep_view() =~= v.deep_view().take(i + 1));
        i = i + 1;
    }
    assert(v.deep_view().take(v.len() as int) =~= v.deep_view());
    out
}

/// The flex group of size `sku` found in the table.
fn lookup_flex(size_vec: &Vec<CsvRow>, size_flex: &FlexGroups, sku: &str) -> (r: Result<
    FlexLookUp,
    LookupMiss,
>)
    requires
        size_flex.wf(),
    ensures
        match (r, flex_lookup_of(rows_view(size_vec@), size_flex@, sku@)) {
            (Ok(fl), Ok(v)) => fl@ == v,
            (Err(a), Err(b)) => a == b,
            _ => false,
        },
{
    let ghost rows = rows_view(size_vec@);
    let mut k: usize = 0;
    while k < size_vec.len() && !same_text(size_vec[k].flex_sku_name.as_str(), sku)
        invariant
            rows == rows_view(size_vec@),
            k <= size_vec.len(),
            forall|j: int| 0 <= j < k ==> (#[trigger] rows[j]).1 != sku@,
        decreases size_vec.len() - k,
    {
        assert(rows[k as int] == size_vec@[k as int]@);
        k = k + 1;
    }
    proof {
        if k < size_vec.len() {
            assert(rows[k as int] == size_vec@[k as int]@);
        }
        lemma_first_row_index(rows, sku@, k as int);
    }
    if k == size_vec.len() {
        return Err(LookupMiss::UnknownSize);
    }
    let row = &size_vec[k];
    match size_flex.get(row.flex_group.as_str()) {
        Some(options) => Ok(
            FlexLookUp {
                flex_group: row.flex_group.as_str().to_owned(),
                flex_sku_name: row.flex_sku_name.as_str().to_owned(),
                flex_ratio: row.flex_ratio.as_str().to_owned(),
                flex_options: copy_strings(options),
            },
        ),
        None => Err(LookupMiss::NoBaseSizes),
    }
}

/// The first virtual machine that cannot be given its flex group, if there
/// is one: its size has no row in the table, or its group has no base size.
pub fn enrich_fault(vms: &VirtualMachines, size_vec: &Vec<CsvRow>, size_flex: &FlexGroups) -> (r: Option<
    EnrichError,
>)
    requires
        size_flex.wf(),
    ensures
        match enrich_outcome(vms.0@, rows_view(size_vec@), size_flex@, vms.0@.len() as int) {
            Ok(()) => r is None,
            Err(e) => r == Some(e),
        },
{
    let ghost rows = rows_view(size_vec@);
    let ghost groups = size_flex@;
    let ghost orig = vms.0@;
    let n = vms.0.len();
    let mut i: usize = 0;
    while i < n
        invariant
            n == vms.0@.len(),
            vms.0@ == orig,
            rows == rows_view(size_vec@),
            groups == size_flex@,
            size_flex.wf(),
            i <= n,
            enrich_outcome(orig, rows, groups, i as int) is Ok,
        decreases n - i,
    {
        match lookup_flex(size_vec, size_flex, vms.0[i].vm_size.as_str()) {
            Ok(_) => {},
            Err(LookupMiss::UnknownSize) => {
                proof {
                    lemma_enrich_error_stays(orig, rows, groups, i + 1, n as int);
                }
                return Some(EnrichError::UnknownVmSize { vm: i });
            },
            Err(LookupMiss::NoBaseSizes) => {
                proof {
                    lemma_enrich_error_stays(orig, rows, groups, i + 1, n as int);
                }
                return Some(EnrichError::NoBaseSizes { vm: i });
            },
        }
        i = i + 1;
    }
    None
}

/// Gives every virtual machine the flex group of its size: the group, ratio
/// and base sizes of the first table row for that size. Every machine's size
/// must have a row, and its group a base size.
pub fn enrich_vm_fields(vms: &mut VirtualMachines, size_vec: &Vec<CsvRow>, size_flex: &FlexGroups)
    requires
        size_flex.wf(),
        enrich_outcome(old(vms).0@, rows_view(size_vec@), size_flex@, old(vms).0@.len() as int) is Ok,
    ensures
        final(vms).0@.len() == old(vms).0@.len(),
        forall|i: int|
            0 <= i < old(vms).0@.len() ==> {
                let before = #[trigger] old(vms).0@[i];
                let after = final(vms).0@[i];
                &&& after.id == before.id
                &&& after.vm_id == before.vm_id
                &&& after.name == before.name
                &&& after.location == before.location
                &&& after.zones == before.zones
                &&& after.vm_size == before.vm_size
                &&& after.flex_lookup matches Some(fl) && flex_lookup_of(
                    rows_view(size_vec@),
                    size_flex@,
                    before.vm_size@,
                ) == Ok::<_, LookupMiss>(fl@)
            },
{
    let ghost rows = rows_view(size_vec@);
    let ghost groups = size_flex@;
    let ghost orig = vms.0@;
    let n = vms.0.len();
    let mut i: usize = 0;
    while i < n
        invariant
            n == vms.0@.len(),
            n == orig.len(),
            rows == rows_view(size_vec@),
            groups == size_flex@,
            size_flex.wf(),
            i <= n,
            enrich_outcome(orig, rows, groups, n as int) is Ok,
            forall|j: int|
                i <= j < n ==> #[trigger] vms.0@[j] == orig[j],
            forall|j: int|
                0 <= j < i ==> {
                    let before = #[trigger] orig[j];
                    let after = vms.0@[j];
                    &&& after.id == before.id
                    &&& after.vm_id == before.vm_id
                    &&& after.name == before.name
                    &&& after.location == before.location
                    &&& after.zones == before.zones
                    &&& after.vm_size == before.vm_size
                    &&& after.flex_lookup matches Some(fl) && flex_lookup_of(rows, groups, before.vm_size@)
                        == Ok::<_, LookupMiss>(fl@)
                },
        decreases n - i,
    {
        proof {
            lemma_enrich_ok_prefix(orig, rows, groups, i as int, n as int);
        }
        let found = lookup_flex(size_vec, size_flex, vms.0[i].vm_size.as_str());
        match found {
            Ok(fl) => {
                vms.0[i].flex_lookup = Some(fl);
            },
            Err(_) => {
                assert(false);
            },
        }
        i = i + 1;
    }
}

// ---------------------------------------------------------------------------
// The summary of flex groups
// ---------------------------------------------------------------------------
/// Why a virtual machine cannot be counted in the summary. `vm` is its position.
#[derive(Debug, Clone, Copy, PartialEq, Eq, Structural)]
pub enum SummaryError {
    /// The size name has four bytes or fewer.
    ShortVmSize { vm: usize },
    /// The machine has not been given its flex group.
    NoFlexLookup { vm: usize },
    /// The flex ratio of the machine is not a number.
    BadFlexRatio { vm: usize },
}

/// How the machines go into the summary, in their order, up to the first
/// that cannot be counted.
pub struct SummaryPlan {
    /// For each machine counted: whether it is the first of its flex group,
    /// whose prices must then be looked up.
    pub new_group: Vec<bool>,
    /// The flex groups, in the order in which they were first met.
    pub groups: Vec<String>,
    /// The first machine that cannot be counted, if there is one.
    pub failure: Option<SummaryError>,
}

/// Whether machine `vm` at position `i` cannot be counted.
pub open spec fn summary_fault(vm: VM, i: int) -> Option<SummaryError> {
    if (vstd::utf8::encode_utf8(vm.vm_size@).len() as usize) <= 4 {
        Some(SummaryError::ShortVmSize { vm: i as usize })
    } else if vm.flex_lookup is None {
        Some(SummaryError::NoFlexLookup { vm: i as usize })
    } else if !is_float_text(vm.flex_lookup->0.flex_ratio@) {
        Some(SummaryError::BadFlexRatio { vm: i as usize })
    } else {
        None
    }
}

/// The summary of the first `k` machines: the new-group flags of those
/// counted, the groups met, and the first fault.
pub open spec fn summary_upto(vms: Seq<VM>, k: int) -> (Seq<bool>, Seq<Seq<char>>, Option<SummaryError>)
    decreases k,
{
    if k <= 0 {
        (Seq::empty(), Seq::empty(), None)
    } else {
        let (flags, groups, failure) = summary_upto(vms, k - 1);
        if failure is Some {
            (flags, groups, failure)
        } else {
            match summary_fault(vms[k - 1], k - 1) {
                Some(e) => (flags, groups, Some(e)),
                None => {
                    let g = vms[k - 1].flex_lookup->0.flex_group@;
                    if groups.contains(g) {
                        (flags.push(false), groups, None)
                    } else {
                        (flags.push(true), groups.push(g), None)
                    }
                },
            }
        }
    }
}

/// Whether `g` is among `groups`.
fn has_group(groups: &Vec<String>, g: &str) -> (r: bool)
    ensures
        r == groups.deep_view().contains(g@),
{
    let mut i: usize = 0;
    while i < groups.len()
        invariant
            i <= groups.len(),
            forall|k: int| 0 <= k < i ==> groups@[k]@ != g@,
        decreases groups.len() - i,
    {
        if same_text(groups[i].as_str(), g) {
            assert(groups.deep_view()[i as int] == g@);
            return true;
        }
        i = i + 1;
    }
    proof {
        if groups.deep_view().contains(g@) {
            let k = choose|k: int| 0 <= k < groups.deep_view().len() && groups.deep_view()[k] == g@;
            assert(groups.deep_view()[k] == groups@[k]@);
        }
    }
    false
}

/// Goes through the machines in order, as the summary counts them: each must
/// have a size name of more than four bytes and a flex group whose ratio is a
/// number. A machine is the first of its group when no earlier machine had
/// that group.
pub fn plan_summary(vms: &VirtualMachines) -> (r: SummaryPlan)
    ensures
        (r.new_group@, r.groups.deep_view(), r.failure) == summary_upto(vms.0@, vms.0@.len() as int),
{
    let n = vms.0.len();
    let mut new_group: Vec<bool> = Vec::new();
    let mut groups: Vec<String> = Vec::new();
    let mut i: usize = 0;
    while i < n
        invariant
            n == vms.0@.len(),
            i <= n,
            summary_upto(vms.0@, i as int) == (new_group@, groups.deep_view(), None::<SummaryError>),
        decreases n - i,
    {
        let vm = &vms.0[i];
        if vm.vm_size.as_str().len() <= 4 {
            let failure = Some(SummaryError::ShortVmSize { vm: i });
            proof {
                lemma_summary_stops(vms.0@, i + 1, n as int);
            }
            return SummaryPlan { new_group, groups, failure };
        }
        let lookup = match &vm.flex_lookup {
            Some(l) => l,
            None => {
                let failure = Some(SummaryError::NoFlexLookup { vm: i });
                proof {
                    lemma_summary_stops(vms.0@, i + 1, n as int);
                }
                return SummaryPlan { new_group, groups, failure };
            },
        };
        if !is_float_literal(lookup.flex_ratio.as_str()) {
            let failure = Some(SummaryError::BadFlexRatio { vm: i });
            proof {
                lemma_summary_stops(vms.0@, i + 1, n as int);
            }
            return SummaryPlan { new_group, groups, failure };
        }
        let g = lookup.flex_group.as_str();
        if has_group(&groups, g) {
            new_group.push(false);
        } else {
            new_group.push(true);
            let ghost before = groups.deep_view();
            groups.push(g.to_owned());
            assert(groups.deep_view() =~= before.push(g@));
        }
        i = i + 1;
    }
    SummaryPlan { new_group, groups, failure: None }
}

proof fn lemma_summary_stops(vms: Seq<VM>, k: int, m: int)
    requires
        0 <= k <= m,
        summary_upto(vms, k).2 is Some,
    ensures
        summary_upto(vms, m) == summary_upto(vms, k),
    decreases m - k,
{
    if m > k {
        lemma_summary_stops(vms, k, m - 1);
    }
}

/// The flex groups of a summary in the order in which they are printed:
/// ascending.
pub fn sorted_flex_groups(plan: &SummaryPlan) -> (r: Vec<String>)
    ensures
        r.deep_view().to_multiset() == plan.groups.deep_view().to_multiset(),
        is_sorted_text(r.deep_view()),
{
    sorted_strings(copy_strings(&plan.groups))
}

/// Every flex group appears once in a summary, and there are as many groups
/// as machines that are the first of their group.
pub proof fn lemma_summary_groups_distinct(vms: Seq<VM>, k: int)
    requires
        0 <= k,
    ensures
        summary_upto(vms, k).1.no_duplicates(),
        summary_upto(vms, k).1.len() == summary_upto(vms, k).0.filter(|b: bool| b).len(),
    decreases k,
{
    if k > 0 {
        lemma_summary_groups_distinct(vms, k - 1);
        let (flags, groups, failure) = summary_upto(vms, k - 1);
        reveal_with_fuel(Seq::filter, 1);
        if failure is None && summary_fault(vms[k - 1], k - 1) is None {
            let g = vms[k - 1].flex_lookup->0.flex_group@;
            if groups.contains(g) {
                assert(flags.push(false).drop_last() =~= flags);
            } else {
                assert(flags.push(true).drop_last() =~= flags);
                assert forall|a: int, b: int| 0 <= a < b < groups.len() + 1 implies groups.push(g)[a]
                    != groups.push(g)[b] by {
                    if b == groups.len() {
                        assert(groups.contains(groups[a]));
                    }
                }
            }
        }
    }
}

proof fn lemma_first_row_found(rows: Seq<(Seq<char>, Seq<char>, Seq<char>)>, sku: Seq<char>)
    ensures
        first_row_index(rows, sku) >= 0 ==> {
            let k = first_row_index(rows, sku);
            &&& k < rows.len()
            &&& rows[k].1 == sku
            &&& forall|j: int| 0 <= j < k ==> (#[trigger] rows[j]).1 != sku
        },
        first_row_index(rows, sku) < 0 ==> forall|j: int| 0 <= j < rows.len() ==> (#[trigger] rows[j]).1 != sku,
    decreases rows.len(),
{
    if rows.len() > 0 {
        lemma_first_row_found(rows.drop_last(), sku);
        assert forall|j: int| 0 <= j < rows.len() - 1 implies rows.drop_last()[j] == rows[j] by {}
    }
}

/// The flex group that a machine of size `sku` is given, from a table read
/// with its rows `rows`, is that of the first row of that size, and its
/// flex options are all the base sizes of that group: the sizes of the
/// group's rows of ratio `1`, in table order. A size in no row has no flex
/// group.
pub proof fn lemma_flex_options_are_base_sizes(rows: Seq<(Seq<char>, Seq<char>, Seq<char>)>, sku: Seq<char>)
    ensures
        flex_lookup_of(rows, flex_groups_of(rows), sku) matches Ok(l) ==> {
            &&& l.1 == sku
            &&& exists|k: int|
                0 <= k < rows.len() && #[trigger] rows[k] == (l.0, l.1, l.2) && forall|j: int|
                    0 <= j < k ==> (#[trigger] rows[j]).1 != sku
            &&& l.3 == base_rows(rows, l.0).map_values(|r: (Seq<char>, Seq<char>, Seq<char>)| r.1)
            &&& l.3.len() > 0
        },
        (forall|j: int| 0 <= j < rows.len() ==> (#[trigger] rows[j]).1 != sku) ==> flex_lookup_of(
            rows,
            flex_groups_of(rows),
            sku,
        ) == Err::<(Seq<char>, Seq<char>, Seq<char>, Seq<Seq<char>>), LookupMiss>(LookupMiss::UnknownSize),
{
    lemma_first_row_found(rows, sku);
    let k = first_row_index(rows, sku);
    if k >= 0 {
        let g = rows[k].0;
        lemma_flex_groups_are_base_rows(rows, g);
        if flex_groups_of(rows).contains_key(g) {
            assert(rows[k] == (rows[k].0, rows[k].1, rows[k].2));
        }
    } else {
        if exists|j: int| 0 <= j < rows.len() && (#[trigger] rows[j]).1 == sku {
            let j = choose|j: int| 0 <= j < rows.len() && (#[trigger] rows[j]).1 == sku;
            assert(rows[j].1 != sku);
        }
    }
}

/// A field that holds a comma or a double quote (here at position `at`) is
/// written enclosed in double quotes; a field with neither is written as it
/// is.
pub proof fn lemma_escape_csv_field_quotes(s: Seq<char>, at: int)
    ensures
        0 <= at < s.len() && (s[at] == ',' || s[at] == '"') ==> {
            let e = escaped_csv_field(s);
            &&& e.len() >= 2
            &&& e[0] == '"'
            &&& e[e.len() - 1] == '"'
        },
        (forall|i: int| 0 <= i < s.len() ==> s[i] != ',' && s[i] != '"') ==> escaped_csv_field(s) == s,
{
    reveal_strlit("\"");
    reveal_strlit(",");
    if 0 <= at < s.len() && (s[at] == ',' || s[at] == '"') {
        if s[at] == ',' {
            assert(s.subrange(at, at + 1) =~= ","@);
            assert(occurs_at(s, ","@, at));
        } else {
            assert(s.subrange(at, at + 1) =~= "\""@);
            assert(occurs_at(s, "\""@, at));
        }
    }
    if forall|i: int| 0 <= i < s.len() ==> s[i] != ',' && s[i] != '"' {
        if has_infix(s, ","@) {
            let i = choose|i: int| occurs_at(s, ","@, i);
            assert(s.subrange(i, i + 1)[0] == s[i]);
        }
        if has_infix(s, "\""@) {
            let i = choose|i: int| occurs_at(s, "\""@, i);
            assert(s.subrange(i, i + 1)[0] == s[i]);
        }
    }
}

/// A machine is refused for a short size name only when that name has at
/// most four bytes; a machine whose size name is longer, that has its flex
/// group and whose ratio is a number is never refused.
pub proof fn lemma_summary_refuses_only_faulty(vm: VM, i: int)
    ensures
        summary_fault(vm, i) matches Some(SummaryError::ShortVmSize { .. }) ==> vstd::utf8::encode_utf8(
            vm.vm_size@,
        ).len() <= 4 || vstd::utf8::encode_utf8(vm.vm_size@).len() > usize::MAX,
        4 < vstd::utf8::encode_utf8(vm.vm_size@).len() <= usize::MAX && vm.flex_lookup is Some
            && is_float_text(vm.flex_lookup->0.flex_ratio@) ==> summary_fault(vm, i) is None,
{
}

/// When every machine has a size name of more than four bytes, its flex
/// group and a ratio that is a number, every machine is counted: the summary
/// has no failure and one flag per machine.
pub proof fn lemma_summary_counts_every_sound_machine(vms: Seq<VM>, k: int)
    requires
        0 <= k <= vms.len(),
        forall|i: int|
            0 <= i < k ==> {
                let n = vstd::utf8::encode_utf8((#[trigger] vms[i]).vm_size@).len();
                &&& 4 < n <= usize::MAX
                &&& vms[i].flex_lookup is Some
                &&& is_float_text(vms[i].flex_lookup->0.flex_ratio@)
            },
    ensures
        summary_upto(vms, k).2 is None,
        summary_upto(vms, k).0.len() == k,
    decreases k,
{
    if k > 0 {
        lemma_summary_counts_every_sound_machine(vms, k - 1);
        lemma_summary_refuses_only_faulty(vms[k - 1], k - 1);
    }
}

} // verus!
