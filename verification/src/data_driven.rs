//! Data-driven row expansion: turns `[[data]]` rows into independent runs.
use vstd::prelude::*;
use crate::text::{
    append_chars, append_str, chars_eq, chars_le, chars_le_exec, chars_of, lemma_chars_le_antisymmetric,
    lemma_chars_le_reflexive, lemma_chars_le_total, lemma_chars_le_transitive, push_decimal, spec_decimal,
    str_eq, string_from_chars,
};

verus! {

/// The views of a list of string pairs.
pub open spec fn entry_views(v: Seq<(String, String)>) -> Seq<(Seq<char>, Seq<char>)> {
    v.map_values(|p: (String, String)| (p.0@, p.1@))
}

/// No key occurs twice.
pub open spec fn distinct_keys(e: Seq<(Seq<char>, Seq<char>)>) -> bool {
    forall|i: int, j: int| 0 <= i < j < e.len() ==> #[trigger] e[i].0 != #[trigger] e[j].0
}

/// `i` is the first position holding key `k`.
pub open spec fn first_key_at(e: Seq<(Seq<char>, Seq<char>)>, k: Seq<char>, i: int) -> bool {
    &&& 0 <= i < e.len()
    &&& e[i].0 == k
    &&& forall|j: int| 0 <= j < i ==> #[trigger] e[j].0 != k
}

/// Whether some entry holds key `k`.
pub open spec fn has_key(e: Seq<(Seq<char>, Seq<char>)>, k: Seq<char>) -> bool {
    exists|i: int| 0 <= i < e.len() && #[trigger] e[i].0 == k
}

/// The entries after setting `k` to `v`: the first entry with key `k` takes
/// the new value, or the pair is appended when the key is new.
pub open spec fn spec_set(e: Seq<(Seq<char>, Seq<char>)>, k: Seq<char>, v: Seq<char>) -> Seq<
    (Seq<char>, Seq<char>),
> {
    if has_key(e, k) {
        e.update(choose|i: int| first_key_at(e, k, i), (k, v))
    } else {
        e.push((k, v))
    }
}

/// The entries built by setting each pair in order (a later duplicate key
/// overrides an earlier one).
pub open spec fn spec_from_pairs(p: Seq<(Seq<char>, Seq<char>)>) -> Seq<(Seq<char>, Seq<char>)>
    decreases p.len(),
{
    if p.len() == 0 {
        Seq::empty()
    } else {
        spec_set(spec_from_pairs(p.drop_last()), p.last().0, p.last().1)
    }
}

proof fn lemma_first_key_exists(e: Seq<(Seq<char>, Seq<char>)>, k: Seq<char>)
    requires
        has_key(e, k),
    ensures
        exists|i: int| first_key_at(e, k, i),
    decreases e.len(),
{
    let i0 = choose|i: int| 0 <= i < e.len() && #[trigger] e[i].0 == k;
    if exists|j: int| 0 <= j < i0 && #[trigger] e[j].0 == k {
        let j = choose|j: int| 0 <= j < i0 && #[trigger] e[j].0 == k;
        assert(has_key(e.take(i0), k)) by {
            assert(e.take(i0)[j].0 == k);
        }
        lemma_first_key_exists(e.take(i0), k);
        let f = choose|i: int| first_key_at(e.take(i0), k, i);
        assert forall|m: int| 0 <= m < f implies #[trigger] e[m].0 != k by {
            assert(e.take(i0)[m] == e[m]);
        }
        assert(first_key_at(e, k, f));
    } else {
        assert(first_key_at(e, k, i0));
    }
}

proof fn lemma_first_key_unique(e: Seq<(Seq<char>, Seq<char>)>, k: Seq<char>, i: int, j: int)
    requires
        first_key_at(e, k, i),
        first_key_at(e, k, j),
    ensures
        i == j,
{
    if i < j {
        assert(e[i].0 != k);
    } else if j < i {
        assert(e[j].0 != k);
    }
}

/// One `[[data]]` row: variable names and their values, each name at most
/// once.
pub struct DataRow {
    pairs: Vec<(String, String)>,
}

impl DataRow {
    /// The row's `(name, value)` entries, in insertion order.
    pub closed spec fn entries(&self) -> Seq<(Seq<char>, Seq<char>)> {
        entry_views(self.pairs@)
    }

    /// Every name occurs once.
    pub open spec fn wf(&self) -> bool {
        distinct_keys(self.entries())
    }

    /// An empty row.
    pub fn new() -> (r: DataRow)
        ensures
            r.entries() == Seq::<(Seq<char>, Seq<char>)>::empty(),
            r.wf(),
    {
        let r = DataRow { pairs: Vec::new() };
        assert(r.entries() =~= Seq::<(Seq<char>, Seq<char>)>::empty());
        r
    }

    /// Number of variables in the row.
    pub fn len(&self) -> (r: usize)
        ensures
            r == self.entries().len(),
    {
        self.pairs.len()
    }

    /// Whether the row holds no variables.
    pub fn is_empty(&self) -> (r: bool)
        ensures
            r == (self.entries().len() == 0),
    {
        self.pairs.len() == 0
    }

    /// Position of the first entry whose name is `key`.
    fn position_of(&self, key: &str) -> (r: Option<usize>)
        ensures
            match r {
                Some(i) => first_key_at(self.entries(), key@, i as int),
                None => !has_key(self.entries(), key@),
            },
    {
        let mut i: usize = 0;
        while i < self.pairs.len()
            invariant
                i <= self.pairs@.len(),
                forall|j: int| 0 <= j < i ==> #[trigger] self.entries()[j].0 != key@,
            decreases self.pairs@.len() - i,
        {
            assert(self.entries()[i as int].0 == self.pairs@[i as int].0@);
            if str_eq(self.pairs[i].0.as_str(), key) {
                return Some(i);
            }
            i = i + 1;
        }
        None
    }

    /// The value of variable `key`, if the row has it.
    pub fn get(&self, key: &str) -> (r: Option<&String>)
        ensures
            match r {
                Some(v) => spec_lookup(self.entries(), key@) == Some(v@),
                None => spec_lookup(self.entries(), key@) is None,
            },
    {
        match self.position_of(key) {
            Some(i) => {
                assert(self.entries()[i as int].1 == self.pairs@[i as int].1@);
                proof {
                    lemma_get_is_lookup(self.entries(), key@, i as int);
                }
                Some(&self.pairs[i].1)
            },
            None => None,
        }
    }

    /// Set variable `key` to `value`, replacing its previous value if any.
    pub fn insert(&mut self, key: String, value: String)
        ensures
            final(self).entries() == spec_set(old(self).entries(), key@, value@),
            old(self).wf() ==> final(self).wf(),
    {
        let ghost k = key@;
        let ghost v = value@;
        let ghost e = old(self).entries();
        match self.position_of(key.as_str()) {
            Some(i) => {
                self.pairs.set(i, (key, value));
                proof {
                    lemma_first_key_unique(e, k, i as int, choose|j: int| first_key_at(e, k, j));
                    assert(self.entries() =~= e.update(i as int, (k, v)));
                }
            },
            None => {
                self.pairs.push((key, value));
                assert(self.entries() =~= e.push((k, v)));
            },
        }
    }

    /// A row holding the given pairs; a later duplicate name overrides an
    /// earlier one.
    pub fn from_pairs(pairs: Vec<(String, String)>) -> (r: DataRow)
        ensures
            r.entries() == spec_from_pairs(entry_views(pairs@)),
            r.wf(),
    {
        let mut row = DataRow::new();
        let mut rest = pairs;
        let mut staged: Vec<(String, String)> = Vec::new();
        let ghost all = entry_views(rest@);
        while rest.len() > 0
            invariant
                entry_views(staged@) + entry_views(rest@).reverse() == all.reverse(),
            decreases rest.len(),
        {
            let ghost bs = entry_views(staged@);
            let ghost br = entry_views(rest@);
            let x = rest.pop().unwrap();
            staged.push(x);
            assert(entry_views(staged@) =~= bs.push(br.last()));
            assert(entry_views(rest@) =~= br.drop_last());
            assert(br.reverse() =~= seq![br.last()] + br.drop_last().reverse());
            assert(entry_views(staged@) + entry_views(rest@).reverse() =~= bs + br.reverse());
        }
        assert(entry_views(rest@).reverse() =~= Seq::<(Seq<char>, Seq<char>)>::empty());
        assert(entry_views(staged@) =~= all.reverse());
        let ghost n = all.len();
        while staged.len() > 0
            invariant
                n == all.len(),
                staged@.len() <= n,
                entry_views(staged@) == all.reverse().take(staged@.len() as int),
                row.entries() == spec_from_pairs(all.take(n - staged@.len())),
                row.wf(),
            decreases staged.len(),
        {
            let ghost m = staged@.len();
            let (k, v) = staged.pop().unwrap();
            proof {
                assert(all.reverse().take(m as int)[m - 1] == all[n - m]);
                assert(entry_views(staged@) =~= all.reverse().take(staged@.len() as int));
                assert(all.take(n - m + 1).drop_last() =~= all.take(n - m));
                assert(all.take(n - m + 1).last() == all[n - m]);
            }
            row.insert(k, v);
            proof {
                let e = spec_from_pairs(all.take(n - m));
                let kv = all[n - m];
                assert(row.entries() == spec_set(e, kv.0, kv.1));
            }
        }
        assert(all.take(n as int) =~= all);
        row
    }

    fn copy(&self) -> (r: DataRow)
        ensures
            r.entries() == self.entries(),
    {
        let mut pairs: Vec<(String, String)> = Vec::new();
        let mut i: usize = 0;
        while i < self.pairs.len()
            invariant
                i <= self.pairs@.len(),
                entry_views(pairs@) == self.entries().take(i as int),
            decreases self.pairs@.len() - i,
        {
            let k = self.pairs[i].0.clone();
            let v = self.pairs[i].1.clone();
            let ghost before = pairs@;
            let ghost kv = (k@, v@);
            pairs.push((k, v));
            assert(self.entries()[i as int] == (self.pairs@[i as int].0@, self.pairs@[i as int].1@));
            assert(entry_views(pairs@) =~= entry_views(before).push(kv));
            i = i + 1;
            assert(entry_views(pairs@) =~= self.entries().take(i as int));
        }
        assert(self.entries().take(self.pairs@.len() as int) =~= self.entries());
        DataRow { pairs }
    }
}

/// A single data-driven run configuration.
pub struct DataRun {
    /// Zero-based index of this run in the data row list.
    pub index: usize,
    /// Variables from the corresponding `[[data]]` row.
    pub vars: DataRow,
    /// Human-readable label, e.g. `"data[0]: payment=credit_card"`.
    pub label: String,
}

/// `name=value`.
pub open spec fn spec_pair_text(e: (Seq<char>, Seq<char>)) -> Seq<char> {
    e.0 + "="@ + e.1
}

/// The items of `list` separated by `sep`.
pub open spec fn spec_join_with(list: Seq<Seq<char>>, sep: Seq<char>) -> Seq<char>
    decreases list.len(),
{
    if list.len() == 0 {
        Seq::empty()
    } else if list.len() == 1 {
        list[0]
    } else {
        spec_join_with(list.drop_last(), sep) + sep + list.last()
    }
}

/// Entries ordered by name; entries with the same name by value.
pub open spec fn entry_le(a: (Seq<char>, Seq<char>), b: (Seq<char>, Seq<char>)) -> bool {
    if a.0 == b.0 {
        chars_le(a.1, b.1)
    } else {
        chars_le(a.0, b.0)
    }
}

/// `entry_le` as a relation.
pub open spec fn entry_leq() -> spec_fn((Seq<char>, Seq<char>), (Seq<char>, Seq<char>)) -> bool {
    |a: (Seq<char>, Seq<char>), b: (Seq<char>, Seq<char>)| entry_le(a, b)
}

/// The entries sorted by name (see `entry_le`).
pub open spec fn sort_entries(e: Seq<(Seq<char>, Seq<char>)>) -> Seq<(Seq<char>, Seq<char>)> {
    e.sort_by(entry_leq())
}

/// Whether `e` is sorted by `entry_le`.
pub open spec fn sorted_entries(e: Seq<(Seq<char>, Seq<char>)>) -> bool {
    forall|i: int, j: int| 0 <= i < j < e.len() ==> entry_le(#[trigger] e[i], #[trigger] e[j])
}

proof fn lemma_entry_le_transitive(
    a: (Seq<char>, Seq<char>),
    b: (Seq<char>, Seq<char>),
    c: (Seq<char>, Seq<char>),
)
    requires
        entry_le(a, b),
        entry_le(b, c),
    ensures
        entry_le(a, c),
{
    if a.0 == b.0 && b.0 == c.0 {
        lemma_chars_le_transitive(a.1, b.1, c.1);
    } else if a.0 == b.0 {
    } else if b.0 == c.0 {
    } else {
        lemma_chars_le_transitive(a.0, b.0, c.0);
        if a.0 == c.0 {
            lemma_chars_le_antisymmetric(a.0, b.0);
        }
    }
}

proof fn lemma_entry_le_total(a: (Seq<char>, Seq<char>), b: (Seq<char>, Seq<char>))
    ensures
        entry_le(a, b) || entry_le(b, a),
{
    if a.0 == b.0 {
        lemma_chars_le_total(a.1, b.1);
    } else {
        lemma_chars_le_total(a.0, b.0);
    }
}

/// `entry_le` is a total order.
proof fn lemma_entry_le_total_ordering()
    ensures
        vstd::relations::total_ordering(entry_leq()),
{
    let leq = entry_leq();
    assert forall|x: (Seq<char>, Seq<char>)| #[trigger] leq(x, x) by {
        lemma_chars_le_reflexive(x.1);
    }
    assert forall|x: (Seq<char>, Seq<char>), y: (Seq<char>, Seq<char>)| #[trigger] leq(x, y) && #[trigger] leq(
        y,
        x,
    ) implies x == y by {
        if x.0 == y.0 {
            lemma_chars_le_antisymmetric(x.1, y.1);
        } else {
            lemma_chars_le_antisymmetric(x.0, y.0);
        }
    }
    assert forall|x: (Seq<char>, Seq<char>), y: (Seq<char>, Seq<char>), z: (Seq<char>, Seq<char>)| #[trigger] leq(
        x,
        y,
    ) && #[trigger] leq(y, z) implies leq(x, z) by {
        lemma_entry_le_transitive(x, y, z);
    }
    assert forall|x: (Seq<char>, Seq<char>), y: (Seq<char>, Seq<char>)| #[trigger] leq(x, y) || #[trigger] leq(
        y,
        x,
    ) by {
        lemma_entry_le_total(x, y);
    }
}

/// The views of a list of character-vector pairs.
pub open spec fn pair_views(v: Seq<(Vec<char>, Vec<char>)>) -> Seq<(Seq<char>, Seq<char>)> {
    v.map_values(|p: (Vec<char>, Vec<char>)| (p.0@, p.1@))
}

/// Whether entry `a` sorts at or before entry `b`.
fn entry_le_exec(a: &(Vec<char>, Vec<char>), b: &(Vec<char>, Vec<char>)) -> (r: bool)
    ensures
        r == entry_le((a.0@, a.1@), (b.0@, b.1@)),
{
    if chars_eq(&a.0, &b.0) {
        chars_le_exec(&a.1, &b.1)
    } else {
        chars_le_exec(&a.0, &b.0)
    }
}

/// Sorts entries by name (insertion sort, see `entry_le`).
fn sort_entry_vecs(items: Vec<(Vec<char>, Vec<char>)>) -> (r: Vec<(Vec<char>, Vec<char>)>)
    ensures
        pair_views(r@) == sort_entries(pair_views(items@)),
{
    broadcast use vstd::multiset::group_multiset_axioms, vstd::seq_lib::group_to_multiset_ensures;

    let ghost views = pair_views(items@);
    let mut out: Vec<(Vec<char>, Vec<char>)> = Vec::new();
    let mut pending = items;
    proof {
        assert(pair_views(out@) =~= Seq::<(Seq<char>, Seq<char>)>::empty());
    }
    while pending.len() > 0
        invariant
            sorted_entries(pair_views(out@)),
            pair_views(out@).to_multiset().add(pair_views(pending@).to_multiset()) == views.to_multiset(),
        decreases pending.len(),
    {
        let ghost before_p = pair_views(pending@);
        let ghost before_o = pair_views(out@);
        let x = pending.pop().unwrap();
        let ghost xv = (x.0@, x.1@);
        assert(before_p =~= pair_views(pending@).push(xv));
        let mut p: usize = 0;
        while p < out.len() && entry_le_exec(&out[p], &x)
            invariant
                p <= out.len(),
                before_o == pair_views(out@),
                forall|q: int| 0 <= q < p ==> entry_le(#[trigger] before_o[q], xv),
                (x.0@, x.1@) == xv,
            decreases out.len() - p,
        {
            assert(before_o[p as int] == (out@[p as int].0@, out@[p as int].1@));
            p = p + 1;
        }
        proof {
            if p < out.len() {
                assert(before_o[p as int] == (out@[p as int].0@, out@[p as int].1@));
                lemma_entry_le_total(before_o[p as int], xv);
            }
        }
        out.insert(p, x);
        let ghost after_o = pair_views(out@);
        assert(after_o =~= before_o.insert(p as int, xv));
        proof {
            assert forall|a: int, b: int| 0 <= a < b < after_o.len() implies entry_le(
                #[trigger] after_o[a],
                #[trigger] after_o[b],
            ) by {
                if b < p {
                    assert(after_o[a] == before_o[a]);
                    assert(after_o[b] == before_o[b]);
                } else if b == p {
                    assert(after_o[a] == before_o[a]);
                } else if a == p {
                    assert(after_o[b] == before_o[b - 1]);
                    if b - 1 > p {
                        assert(entry_le(before_o[p as int], before_o[b - 1]));
                        lemma_entry_le_transitive(xv, before_o[p as int], before_o[b - 1]);
                    }
                } else if a < p {
                    assert(after_o[a] == before_o[a]);
                    assert(after_o[b] == before_o[b - 1]);
                } else {
                    assert(after_o[a] == before_o[a - 1]);
                    assert(after_o[b] == before_o[b - 1]);
                }
            }
            vstd::seq_lib::to_multiset_insert(before_o, p as int, xv);
            assert(after_o.to_multiset() == before_o.to_multiset().insert(xv));
            vstd::seq_lib::to_multiset_build(pair_views(pending@), xv);
            assert(before_p.to_multiset() == pair_views(pending@).to_multiset().insert(xv));
            assert(after_o.to_multiset().add(pair_views(pending@).to_multiset()) =~= before_o.to_multiset().add(
                before_p.to_multiset(),
            ));
        }
    }
    proof {
        let ov = pair_views(out@);
        assert(pair_views(pending@) =~= Seq::<(Seq<char>, Seq<char>)>::empty());
        assert(ov.to_multiset() =~= views.to_multiset());
        lemma_entry_le_total_ordering();
        assert(vstd::relations::sorted_by(ov, entry_leq())) by {
            assert forall|i: int, j: int| 0 <= i < j < ov.len() implies #[trigger] (entry_leq())(ov[i], ov[j]) by {
                assert(entry_le(ov[i], ov[j]));
            }
        }
        views.lemma_sort_by_ensures(entry_leq());
        vstd::seq_lib::lemma_sorted_unique(ov, views.sort_by(entry_leq()), entry_leq());
    }
    out
}

/// The label of run `index` over a row: `data[{index}]: ` followed by the
/// row's `name=value` pairs in order of name, separated by `, `.
pub open spec fn spec_label(index: usize, e: Seq<(Seq<char>, Seq<char>)>) -> Seq<char> {
    "data["@ + spec_decimal(index as nat) + "]: "@ + spec_join_with(
        sort_entries(e).map_values(|p: (Seq<char>, Seq<char>)| spec_pair_text(p)),
        ", "@,
    )
}

/// A human-readable, deterministic label for a data row: pairs are sorted by
/// name so the label does not depend on the order the row was built in.
pub fn format_label(index: usize, row: &DataRow) -> (r: String)
    ensures
        r@ == spec_label(index, row.entries()),
{
    let mut items: Vec<(Vec<char>, Vec<char>)> = Vec::new();
    let mut i: usize = 0;
    while i < row.pairs.len()
        invariant
            i <= row.pairs@.len(),
            pair_views(items@) == row.entries().take(i as int),
        decreases row.pairs@.len() - i,
    {
        let k = chars_of(row.pairs[i].0.as_str());
        let v = chars_of(row.pairs[i].1.as_str());
        assert(row.entries()[i as int] == (row.pairs@[i as int].0@, row.pairs@[i as int].1@));
        let ghost before = items@;
        let ghost kv = (k@, v@);
        items.push((k, v));
        assert(pair_views(items@) =~= pair_views(before).push(kv));
        i = i + 1;
        assert(pair_views(items@) =~= row.entries().take(i as int));
    }
    assert(row.entries().take(row.pairs@.len() as int) =~= row.entries());
    let sorted = sort_entry_vecs(items);
    let ghost sv = sort_entries(row.entries()).map_values(|p: (Seq<char>, Seq<char>)| spec_pair_text(p));
    let mut out: Vec<char> = Vec::new();
    append_str(&mut out, "data[");
    push_decimal(&mut out, index as u64);
    append_str(&mut out, "]: ");
    let ghost head = out@;
    let mut j: usize = 0;
    while j < sorted.len()
        invariant
            j <= sorted@.len(),
            pair_views(sorted@) == sort_entries(row.entries()),
            sv == sort_entries(row.entries()).map_values(|p: (Seq<char>, Seq<char>)| spec_pair_text(p)),
            sv.len() == sorted@.len(),
            out@ == head + spec_join_with(sv.take(j as int), ", "@),
        decreases sorted@.len() - j,
    {
        if j > 0 {
            append_str(&mut out, ", ");
        }
        let ghost before = out@;
        append_chars(&mut out, &sorted[j].0);
        append_str(&mut out, "=");
        append_chars(&mut out, &sorted[j].1);
        proof {
            assert(pair_views(sorted@)[j as int] == (sorted@[j as int].0@, sorted@[j as int].1@));
            assert(sv[j as int] == spec_pair_text(pair_views(sorted@)[j as int]));
            assert(out@ =~= before + sv[j as int]);
            assert(sv.take(j + 1).drop_last() =~= sv.take(j as int));
            assert(sv.take(j + 1).last() == sv[j as int]);
            if j == 0 {
                assert(sv.take(1) =~= seq![sv[0]]);
            }
        }
        j = j + 1;
        assert(out@ =~= head + spec_join_with(sv.take(j as int), ", "@));
    }
    assert(sv.take(sorted@.len() as int) =~= sv);
    string_from_chars(&out)
}

/// Run `i` has index `i`, row `i`'s variables and row `i`'s label.
pub open spec fn runs_match(r: Seq<DataRun>, data: Seq<DataRow>) -> bool {
    &&& r.len() == data.len()
    &&& forall|i: int|
        0 <= i < data.len() ==> {
            &&& #[trigger] r[i].index == i
            &&& r[i].vars.entries() == data[i].entries()
            &&& r[i].label@ == spec_label(i as usize, data[i].entries())
        }
}

/// One run per data row, in order: run `i` has index `i`, row `i`'s
/// variables, and the label of row `i`.
pub fn expand_data_rows(data: &[DataRow]) -> (r: Vec<DataRun>)
    ensures
        runs_match(r@, data@),
{
    let mut runs: Vec<DataRun> = Vec::new();
    let mut i: usize = 0;
    while i < data.len()
        invariant
            i <= data@.len(),
            runs_match(runs@, data@.take(i as int)),
        decreases data@.len() - i,
    {
        let label = format_label(i, &data[i]);
        let vars = data[i].copy();
        let ghost before = runs@;
        runs.push(DataRun { index: i, vars, label });
        proof {
            let d = data@.take(i + 1);
            assert forall|j: int| 0 <= j < d.len() implies {
                &&& #[trigger] runs@[j].index == j
                &&& runs@[j].vars.entries() == d[j].entries()
                &&& runs@[j].label@ == spec_label(j as usize, d[j].entries())
            } by {
                if j < i {
                    assert(runs@[j] == before[j]);
                    assert(d[j] == data@.take(i as int)[j]);
                    assert(before[j].index == j);
                } else {
                    assert(d[j] == data@[i as int]);
                    assert(runs@[j].index == i);
                    assert(j as usize == i);
                }
            }
        }
        i = i + 1;
    }
    assert(data@.take(data@.len() as int) =~= data@);
    runs
}

/// The runs of a flow: one default run (index 0, no variables, label
/// `default`) when there are no data rows, else one run per row.
pub fn get_runs(data: &[DataRow]) -> (r: Vec<DataRun>)
    ensures
        data@.len() == 0 ==> r@.len() == 1 && r@[0].index == 0 && r@[0].vars.entries().len() == 0
            && r@[0].label@ == "default"@,
        data@.len() > 0 ==> runs_match(r@, data@),
{
    if data.len() == 0 {
        let mut v: Vec<DataRun> = Vec::new();
        v.push(DataRun { index: 0, vars: DataRow::new(), label: "default".to_string() });
        v
    } else {
        expand_data_rows(data)
    }
}

// ── Laws ─────────────────────────────────────────────────────────────

/// The value a row holds for key `k`: that of the first entry with key `k`.
pub open spec fn spec_lookup(e: Seq<(Seq<char>, Seq<char>)>, k: Seq<char>) -> Option<Seq<char>> {
    if has_key(e, k) {
        Some(e[choose|i: int| first_key_at(e, k, i)].1)
    } else {
        None
    }
}

/// `get` reads what `spec_lookup` says the row holds.
pub proof fn lemma_get_is_lookup(e: Seq<(Seq<char>, Seq<char>)>, k: Seq<char>, i: int)
    requires
        first_key_at(e, k, i),
    ensures
        spec_lookup(e, k) == Some(e[i].1),
{
    lemma_first_key_unique(e, k, i, choose|j: int| first_key_at(e, k, j));
}

/// After setting `k` to `v`, the row holds `v` for `k`, and every other key
/// keeps its value.
pub proof fn lemma_lookup_after_set(e: Seq<(Seq<char>, Seq<char>)>, k: Seq<char>, v: Seq<char>, k2: Seq<char>)
    ensures
        spec_lookup(spec_set(e, k, v), k) == Some(v),
        k2 != k ==> spec_lookup(spec_set(e, k, v), k2) == spec_lookup(e, k2),
{
    let n = spec_set(e, k, v);
    if has_key(e, k) {
        lemma_first_key_exists(e, k);
        let i = choose|i: int| first_key_at(e, k, i);
        assert(n == e.update(i, (k, v)));
        assert(first_key_at(n, k, i));
        lemma_get_is_lookup(n, k, i);
        if k2 != k {
            if has_key(e, k2) {
                lemma_first_key_exists(e, k2);
                let j = choose|j: int| first_key_at(e, k2, j);
                assert(first_key_at(n, k2, j));
                lemma_get_is_lookup(n, k2, j);
                lemma_get_is_lookup(e, k2, j);
            } else {
                assert forall|m: int| 0 <= m < n.len() implies #[trigger] n[m].0 != k2 by {
                    if m != i {
                        assert(n[m] == e[m]);
                    }
                }
            }
        }
    } else {
        assert(n == e.push((k, v)));
        let i = e.len() as int;
        assert(first_key_at(n, k, i)) by {
            assert forall|m: int| 0 <= m < i implies #[trigger] n[m].0 != k by {
                assert(n[m] == e[m]);
            }
        }
        lemma_get_is_lookup(n, k, i);
        if k2 != k {
            if has_key(e, k2) {
                lemma_first_key_exists(e, k2);
                let j = choose|j: int| first_key_at(e, k2, j);
                assert(first_key_at(n, k2, j)) by {
                    assert(n[j] == e[j]);
                    assert forall|m: int| 0 <= m < j implies #[trigger] n[m].0 != k2 by {
                        assert(n[m] == e[m]);
                    }
                }
                lemma_get_is_lookup(n, k2, j);
                lemma_get_is_lookup(e, k2, j);
            } else {
                assert forall|m: int| 0 <= m < n.len() implies #[trigger] n[m].0 != k2 by {
                    if m < i {
                        assert(n[m] == e[m]);
                    }
                }
            }
        }
    }
}

/// The label does not depend on the order of the row's entries: rows
/// holding the same entries in any order get the same label.
pub proof fn lemma_label_ignores_entry_order(
    index: usize,
    e1: Seq<(Seq<char>, Seq<char>)>,
    e2: Seq<(Seq<char>, Seq<char>)>,
)
    requires
        e1.to_multiset() == e2.to_multiset(),
    ensures
        spec_label(index, e1) == spec_label(index, e2),
{
    lemma_entry_le_total_ordering();
    e1.lemma_sort_by_ensures(entry_leq());
    e2.lemma_sort_by_ensures(entry_leq());
    vstd::seq_lib::lemma_sorted_unique(e1.sort_by(entry_leq()), e2.sort_by(entry_leq()), entry_leq());
    assert(sort_entries(e1) == sort_entries(e2));
}

} // verus!
