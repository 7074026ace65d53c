//! The table of instance size flexibility ratios (https://aka.ms/isf).
//!
//! The table is a CSV text with the header
//! `InstanceSizeFlexibilityGroup,ArmSkuName,Ratio` and one row per size. The
//! sizes of ratio `1` are the base sizes of their group.
use vstd::prelude::*;

use crate::numbers::{is_float_literal, is_float_text};
use crate::text::{same_text, split_at_char, split_char, trim, trimmed};

verus! {

/// One row of the table.
#[derive(Debug, PartialEq, Eq)]
pub struct CsvRow {
    pub flex_group: String,
    pub flex_sku_name: String,
    pub flex_ratio: String,
}

impl View for CsvRow {
    type V = (Seq<char>, Seq<char>, Seq<char>);

    open spec fn view(&self) -> Self::V {
        (self.flex_group@, self.flex_sku_name@, self.flex_ratio@)
    }
}

pub open spec fn rows_view(rows: Seq<CsvRow>) -> Seq<(Seq<char>, Seq<char>, Seq<char>)> {
    rows.map_values(|r: CsvRow| r@)
}

/// Why the table cannot be read. `line` counts the lines of the text from 0,
/// the header being line 0.
#[derive(Debug, Clone, Copy, PartialEq, Eq, Structural)]
pub enum CsvError {
    InvalidHeader,
    InvalidColumnCount { line: usize },
    InvalidRatio { line: usize },
}

/// The expected header line.
pub const FLEX_CSV_HEADER: &'static str = "InstanceSizeFlexibilityGroup,ArmSkuName,Ratio";

// ---------------------------------------------------------------------------
// An association of group names to their base sizes
// ---------------------------------------------------------------------------
/// The map that holds `vals[i]` at `names[i]`, later entries taking precedence.
pub open spec fn assoc_map(names: Seq<Seq<char>>, vals: Seq<Seq<Seq<char>>>) -> Map<
    Seq<char>,
    Seq<Seq<char>>,
>
    decreases names.len(),
{
    if names.len() == 0 || vals.len() == 0 {
        Map::empty()
    } else {
        assoc_map(names.drop_last(), vals.drop_last()).insert(names.last(), vals.last())
    }
}

pub open spec fn distinct_names(names: Seq<Seq<char>>) -> bool {
    forall|i: int, j: int| 0 <= i < j < names.len() ==> names[i] != names[j]
}

proof fn lemma_assoc_map_dom(names: Seq<Seq<char>>, vals: Seq<Seq<Seq<char>>>, k: Seq<char>)
    requires
        names.len() == vals.len(),
    ensures
        assoc_map(names, vals).contains_key(k) <==> names.contains(k),
    decreases names.len(),
{
    if names.len() > 0 {
        lemma_assoc_map_dom(names.drop_last(), vals.drop_last(), k);
        if names.contains(k) && k != names.last() {
            let i = choose|i: int| 0 <= i < names.len() && names[i] == k;
            assert(names.drop_last()[i] == k);
        }
        if names.drop_last().contains(k) {
            let i = choose|i: int| 0 <= i < names.drop_last().len() && names.drop_last()[i] == k;
            assert(names[i] == k);
        }
        assert(names[names.len() - 1] == names.last());
    }
}

proof fn lemma_assoc_map_at(names: Seq<Seq<char>>, vals: Seq<Seq<Seq<char>>>, i: int)
    requires
        names.len() == vals.len(),
        distinct_names(names),
        0 <= i < names.len(),
    ensures
        assoc_map(names, vals).contains_key(names[i]),
        assoc_map(names, vals)[names[i]] == vals[i],
    decreases names.len(),
{
    if i < names.len() - 1 {
        lemma_assoc_map_at(names.drop_last(), vals.drop_last(), i);
        assert(names[i] != names.last());
    }
}

/// What adding the base size `sku` of group `g` does to the groups.
pub open spec fn add_sku(m: Map<Seq<char>, Seq<Seq<char>>>, g: Seq<char>, sku: Seq<char>) -> Map<
    Seq<char>,
    Seq<Seq<char>>,
> {
    if m.contains_key(g) {
        m.insert(g, m[g].push(sku))
    } else {
        m.insert(g, seq![sku])
    }
}

/// The base sizes of each flex group, in the order of the table.
pub struct FlexGroups {
    names: Vec<String>,
    skus: Vec<Vec<String>>,
}

impl View for FlexGroups {
    type V = Map<Seq<char>, Seq<Seq<char>>>;

    closed spec fn view(&self) -> Self::V {
        assoc_map(self.names.deep_view(), self.skus.deep_view())
    }
}

impl FlexGroups {
    pub closed spec fn wf(&self) -> bool {
        &&& self.names.len() == self.skus.len()
        &&& distinct_names(self.names.deep_view())
    }

    /// No groups.
    pub fn new() -> (r: Self)
        ensures
            r.wf(),
            r@ == Map::<Seq<char>, Seq<Seq<char>>>::empty(),
    {
        let r = FlexGroups { names: Vec::new(), skus: Vec::new() };
        assert(r@ =~= Map::<Seq<char>, Seq<Seq<char>>>::empty());
        r
    }

    /// The position of `group` among the names, if it is there.
    fn find(&self, group: &str) -> (r: Option<usize>)
        requires
            self.wf(),
        ensures
            r matches Some(i) ==> i < self.names.len() && self.names@[i as int]@ == group@,
            r is None ==> !self.names.deep_view().contains(group@),
    {
        let mut i: usize = 0;
        while i < self.names.len()
            invariant
                i <= self.names.len(),
                forall|k: int| 0 <= k < i ==> self.names@[k]@ != group@,
            decreases self.names.len() - i,
        {
            if same_text(self.names[i].as_str(), group) {
                return Some(i);
            }
            i = i + 1;
        }
        proof {
            if self.names.deep_view().contains(group@) {
                let k = choose|k: int|
                    0 <= k < self.names.deep_view().len() && self.names.deep_view()[k] == group@;
                assert(self.names.deep_view()[k] == self.names@[k]@);
            }
        }
        None
    }

    /// The base sizes of `group`, if it has any.
    pub fn get(&self, group: &str) -> (r: Option<&Vec<String>>)
        requires
            self.wf(),
        ensures
            r matches Some(v) ==> self@.contains_key(group@) && v.deep_view() == self@[group@],
            r is None ==> !self@.contains_key(group@),
    {
        proof {
            lemma_assoc_map_dom(self.names.deep_view(), self.skus.deep_view(), group@);
        }
        match self.find(group) {
            Some(i) => {
                proof {
                    assert(self.names.deep_view()[i as int] == group@);
                    lemma_assoc_map_at(self.names.deep_view(), self.skus.deep_view(), i as int);
                }
                Some(&self.skus[i])
            },
            None => None,
        }
    }

    /// Records `sku` as a base size of `group`, after those it already has.
    pub fn add(&mut self, group: &str, sku: &str)
        requires
            old(self).wf(),
        ensures
            final(self).wf(),
            final(self)@ == add_sku(old(self)@, group@, sku@),
    {
        let ghost old_names = self.names.deep_view();
        let ghost old_skus = self.skus.deep_view();
        proof {
            lemma_assoc_map_dom(old_names, old_skus, group@);
        }
        match self.find(group) {
            Some(i) => {
                let ghost old_v = self.skus@;
                self.skus[i].push(sku.to_owned());
                proof {
                    let new_skus = self.skus.deep_view();
                    assert(old_names[i as int] == group@);
                    assert(old_skus[i as int] == old_v[i as int].deep_view());
                    assert(self.skus@[i as int].deep_view() =~= old_skus[i as int].push(sku@));
                    assert forall|j: int| 0 <= j < new_skus.len() && j != i implies new_skus[j]
                        == old_skus[j] by {
                        assert(self.skus@[j] == old_v[j]);
                    }
                    assert(new_skus =~= old_skus.update(i as int, old_skus[i as int].push(sku@)));
                    assert(self.names.deep_view() =~= old_names);
                    lemma_assoc_map_at(old_names, old_skus, i as int);
                    let expected = add_sku(assoc_map(old_names, old_skus), group@, sku@);
                    assert forall|k: Seq<char>| #[trigger] self@.contains_key(k) <==> expected.contains_key(k) by {
                        lemma_assoc_map_dom(old_names, new_skus, k);
                        lemma_assoc_map_dom(old_names, old_skus, k);
                    }
                    assert forall|k: Seq<char>| #[trigger] self@.contains_key(k) implies self@[k] == expected[k] by {
                        lemma_assoc_map_dom(old_names, new_skus, k);
                        let j = choose|j: int| 0 <= j < old_names.len() && old_names[j] == k;
                        lemma_assoc_map_at(old_names, new_skus, j);
                        lemma_assoc_map_at(old_names, old_skus, j);
                    }
                    assert(self@ =~= expected);
                }
            },
            None => {
                self.names.push(group.to_owned());
                let one = vec![sku.to_owned()];
                assert(one.deep_view() =~= seq![sku@]);
                self.skus.push(one);
                proof {
                    let new_names = self.names.deep_view();
                    let new_skus = self.skus.deep_view();
                    assert(new_names =~= old_names.push(group@));
                    assert(new_skus =~= old_skus.push(seq![sku@]));
                    assert(new_names.drop_last() =~= old_names);
                    assert(new_skus.drop_last() =~= old_skus);
                    assert forall|a: int, b: int| 0 <= a < b < new_names.len() implies new_names[a]
                        != new_names[b] by {
                        if b == new_names.len() - 1 {
                            assert(old_names.contains(old_names[a]));
                        }
                    }
                }
            },
        }
    }
}

/// Once a line is at fault, the rows up to any later line are that error.
proof fn lemma_rows_error_stays(lines: Seq<Seq<char>>, k: int, m: int)
    requires
        1 <= k <= m,
        rows_upto(lines, k) is Err,
    ensures
        rows_upto(lines, m) == rows_upto(lines, k),
    decreases m - k,
{
    if m > k {
        lemma_rows_error_stays(lines, k, m - 1);
    }
}

// ---------------------------------------------------------------------------
// Reading the table
// ---------------------------------------------------------------------------
/// The base sizes of each group: the sizes of ratio `1`, in the order of the rows.
pub open spec fn flex_groups_of(rows: Seq<(Seq<char>, Seq<char>, Seq<char>)>) -> Map<
    Seq<char>,
    Seq<Seq<char>>,
>
    decreases rows.len(),
{
    if rows.len() == 0 {
        Map::empty()
    } else {
        let m = flex_groups_of(rows.drop_last());
        let r = rows.last();
        if r.2 == "1"@ {
            add_sku(m, r.0, r.1)
        } else {
            m
        }
    }
}

/// The rows of ratio `1` of group `g`, in table order.
pub open spec fn base_rows(rows: Seq<(Seq<char>, Seq<char>, Seq<char>)>, g: Seq<char>) -> Seq<
    (Seq<char>, Seq<char>, Seq<char>),
> {
    rows.filter(|r: (Seq<char>, Seq<char>, Seq<char>)| r.0 == g && r.2 == "1"@)
}

/// A group has base sizes exactly when the table has rows of ratio `1` for
/// it, and its base sizes are the sizes of those rows, in table order.
pub proof fn lemma_flex_groups_are_base_rows(rows: Seq<(Seq<char>, Seq<char>, Seq<char>)>, g: Seq<char>)
    ensures
        flex_groups_of(rows).contains_key(g) <==> base_rows(rows, g).len() > 0,
        flex_groups_of(rows).contains_key(g) ==> flex_groups_of(rows)[g] == base_rows(
            rows,
            g,
        ).map_values(|r: (Seq<char>, Seq<char>, Seq<char>)| r.1),
    decreases rows.len(),
{
    reveal_with_fuel(Seq::filter, 1);
    if rows.len() > 0 {
        let prev = rows.drop_last();
        let r = rows.last();
        lemma_flex_groups_are_base_rows(prev, g);
        let sel = base_rows(prev, g);
        if r.0 == g && r.2 == "1"@ {
            assert(base_rows(rows, g) =~= sel.push(r));
            let f = |x: (Seq<char>, Seq<char>, Seq<char>)| x.1;
            assert(sel.push(r).map_values(f) =~= sel.map_values(f).push(r.1));
            if !flex_groups_of(prev).contains_key(g) {
                assert(sel =~= Seq::<(Seq<char>, Seq<char>, Seq<char>)>::empty());
                assert(sel.push(r).map_values(f) =~= seq![r.1]);
            }
        } else {
            assert(base_rows(rows, g) =~= sel);
        }
    }
}

/// The rows of lines `1..upto` of the table, or the error of the first line
/// that is not a row: a line must have three fields and its ratio must be a
/// number.
pub open spec fn rows_upto(lines: Seq<Seq<char>>, upto: int) -> Result<
    Seq<(Seq<char>, Seq<char>, Seq<char>)>,
    CsvError,
>
    decreases upto,
{
    if upto <= 1 {
        Ok(Seq::empty())
    } else {
        match rows_upto(lines, upto - 1) {
            Err(e) => Err(e),
            Ok(rows) => {
                let fields = split_at_char(lines[upto - 1], ',');
                if fields.len() != 3 {
                    Err(CsvError::InvalidColumnCount { line: (upto - 1) as usize })
                } else if !is_float_text(fields[2]) {
                    Err(CsvError::InvalidRatio { line: (upto - 1) as usize })
                } else {
                    Ok(rows.push((fields[0], fields[1], fields[2])))
                }
            },
        }
    }
}

/// The table read from its lines: the rows, and the base sizes of each group.
pub open spec fn flex_table(lines: Seq<Seq<char>>) -> Result<
    (Seq<(Seq<char>, Seq<char>, Seq<char>)>, Map<Seq<char>, Seq<Seq<char>>>),
    CsvError,
> {
    if lines.len() == 0 {
        Ok((Seq::empty(), Map::empty()))
    } else if trimmed(lines[0]) != FLEX_CSV_HEADER@ {
        Err(CsvError::InvalidHeader)
    } else {
        match rows_upto(lines, lines.len() as int) {
            Ok(rows) => Ok((rows, flex_groups_of(rows))),
            Err(e) => Err(e),
        }
    }
}

/// Reads the table from its lines, or finds the error of the first line at
/// fault.
fn try_parse_flex_csv(lines: &Vec<String>) -> (r: Result<(Vec<CsvRow>, FlexGroups), CsvError>)
    ensures
        r is Ok <==> flex_table(lines.deep_view()) is Ok,
        r matches Ok((rows, groups)) ==> {
            &&& groups.wf()
            &&& flex_table(lines.deep_view()) == Ok::<_, CsvError>((rows_view(rows@), groups@))
        },
        r matches Err(e) ==> flex_table(lines.deep_view()) == Err::<
            (Seq<(Seq<char>, Seq<char>, Seq<char>)>, Map<Seq<char>, Seq<Seq<char>>>),
            CsvError,
        >(e),
{
    let ghost ls = lines.deep_view();
    let mut rows: Vec<CsvRow> = Vec::new();
    let mut groups = FlexGroups::new();
    if lines.len() == 0 {
        assert(rows_view(rows@) =~= Seq::<(Seq<char>, Seq<char>, Seq<char>)>::empty());
        return Ok((rows, groups));
    }
    if !same_text(trim(lines[0].as_str()), FLEX_CSV_HEADER) {
        assert(ls[0] == lines@[0]@);
        return Err(CsvError::InvalidHeader);
    }
    assert(ls[0] == lines@[0]@);
    let mut i: usize = 1;
    assert(rows_view(rows@) =~= Seq::<(Seq<char>, Seq<char>, Seq<char>)>::empty());
    while i < lines.len()
        invariant
            ls == lines.deep_view(),
            ls.len() == lines.len(),
            trimmed(ls[0]) == FLEX_CSV_HEADER@,
            1 <= i <= lines.len(),
            groups.wf(),
            rows_upto(ls, i as int) == Ok::<_, CsvError>(rows_view(rows@)),
            groups@ == flex_groups_of(rows_view(rows@)),
        decreases lines.len() - i,
    {
        let line: &str = lines[i].as_str();
        assert(ls[i as int] == line@);
        let fields = split_char(line, ',');
        proof {
            assert(fields.deep_view().len() == fields.len());
        }
        if fields.len() != 3 {
            proof {
                assert(rows_upto(ls, i + 1) == Err::<Seq<(Seq<char>, Seq<char>, Seq<char>)>, CsvError>(
                    CsvError::InvalidColumnCount { line: i },
                ));
                lemma_rows_error_stays(ls, i + 1, ls.len() as int);
            }
            return Err(CsvError::InvalidColumnCount { line: i });
        }
        let flex_group: &str = fields[0];
        let flex_sku_name: &str = fields[1];
        let flex_ratio: &str = fields[2];
        proof {
            assert(fields.deep_view()[0] == flex_group@);
            assert(fields.deep_view()[1] == flex_sku_name@);
            assert(fields.deep_view()[2] == flex_ratio@);
        }
        if !is_float_literal(flex_ratio) {
            proof {
                assert(rows_upto(ls, i + 1) == Err::<Seq<(Seq<char>, Seq<char>, Seq<char>)>, CsvError>(
                    CsvError::InvalidRatio { line: i },
                ));
                lemma_rows_error_stays(ls, i + 1, ls.len() as int);
            }
            return Err(CsvError::InvalidRatio { line: i });
        }
        proof {
            reveal_strlit("1");
        }
        let ghost old_rows = rows_view(rows@);
        if same_text(flex_ratio, "1") {
            groups.add(flex_group, flex_sku_name);
        }
        rows.push(
            CsvRow {
                flex_group: flex_group.to_owned(),
                flex_sku_name: flex_sku_name.to_owned(),
                flex_ratio: flex_ratio.to_owned(),
            },
        );
        proof {
            assert(rows_view(rows@) =~= old_rows.push((flex_group@, flex_sku_name@, flex_ratio@)));
            assert(rows_view(rows@).drop_last() =~= old_rows);
        }
        i = i + 1;
    }
    Ok((rows, groups))
}


/// What is wrong with the lines of a table, if anything: a header other than
/// `FLEX_CSV_HEADER`, or the first row that does not have three fields or
/// whose ratio is not a number.
pub fn flex_csv_fault(lines: &Vec<String>) -> (r: Option<CsvError>)
    ensures
        match flex_table(lines.deep_view()) {
            Ok(_) => r is None,
            Err(e) => r == Some(e),
        },
{
    match try_parse_flex_csv(lines) {
        Ok(_) => None,
        Err(e) => Some(e),
    }
}

/// Reads the table from its lines (without line ends). The first line is
/// the header; every other line is a row of three comma-separated fields
/// whose third, the ratio, is a number. The result is the rows and the base
/// sizes of each group.
pub fn parse_flex_csv(lines: &Vec<String>) -> (r: (Vec<CsvRow>, FlexGroups))
    requires
        flex_table(lines.deep_view()) is Ok,
    ensures
        r.1.wf(),
        flex_table(lines.deep_view()) == Ok::<_, CsvError>((rows_view(r.0@), r.1@)),
{
    match try_parse_flex_csv(lines) {
        Ok(table) => table,
        Err(_) => {
            assert(false);
            (Vec::new(), FlexGroups::new())
        },
    }
}
} // verus!
