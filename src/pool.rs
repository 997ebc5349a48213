//! The resource pool: stock per resource name, with withdrawal that
//! decrements a count and drops an entry once it reaches zero.

use vstd::prelude::*;

verus! {

/// Stock that each tool starts with.
pub const TOTAL_ITEMS: usize = 10;

/// Kilograms of each paint colour in stock at start.
pub const TOTAL_WEIGHT_KG: usize = 10;

/// A stock list as mathematics: (name, count) pairs in order.
pub open spec fn entries_view(v: Seq<(String, usize)>) -> Seq<(Seq<char>, nat)> {
    v.map_values(|e: (String, usize)| (e.0@, e.1 as nat))
}

/// The names of a sequence of strings.
pub open spec fn names_view(v: Seq<String>) -> Seq<Seq<char>> {
    v.map_values(|s: String| s@)
}

/// No name occurs twice.
pub open spec fn names_unique(s: Seq<(Seq<char>, nat)>) -> bool {
    forall|i: int, j: int| 0 <= i < j < s.len() ==> s[i].0 != s[j].0
}

/// Every entry still has stock: absence is what exhausted means.
pub open spec fn counts_positive(s: Seq<(Seq<char>, nat)>) -> bool {
    forall|i: int| 0 <= i < s.len() ==> s[i].1 > 0
}

/// Well-formed stock: unique names, each with a positive count.
pub open spec fn stock_wf(s: Seq<(Seq<char>, nat)>) -> bool {
    names_unique(s) && counts_positive(s)
}

/// The name occurs in the stock.
pub open spec fn present(s: Seq<(Seq<char>, nat)>, name: Seq<char>) -> bool {
    exists|i: int| 0 <= i < s.len() && s[i].0 == name
}

/// Where the name stands (meaningful when it is present).
pub open spec fn index_of(s: Seq<(Seq<char>, nat)>, name: Seq<char>) -> int {
    choose|i: int| 0 <= i < s.len() && s[i].0 == name
}

/// How many units of the name are left; zero when it is absent.
pub open spec fn stock_of(s: Seq<(Seq<char>, nat)>, name: Seq<char>) -> nat {
    if present(s, name) {
        s[index_of(s, name)].1
    } else {
        0
    }
}

/// One withdrawal: the entry loses a unit and goes once nothing is left;
/// an absent name leaves the stock unchanged.
pub open spec fn withdraw_one(s: Seq<(Seq<char>, nat)>, name: Seq<char>) -> Seq<(Seq<char>, nat)> {
    if present(s, name) {
        let i = index_of(s, name);
        if s[i].1 <= 1 {
            s.remove(i)
        } else {
            s.update(i, (name, (s[i].1 - 1) as nat))
        }
    } else {
        s
    }
}

/// Withdrawal of each name in turn.
pub open spec fn withdraw_all(s: Seq<(Seq<char>, nat)>, names: Seq<Seq<char>>) -> Seq<
    (Seq<char>, nat),
>
    decreases names.len(),
{
    if names.len() == 0 {
        s
    } else {
        withdraw_one(withdraw_all(s, names.drop_last()), names.last())
    }
}

/// The requested names that were not present when their turn came, in order.
pub open spec fn missing_names(s: Seq<(Seq<char>, nat)>, names: Seq<Seq<char>>) -> Seq<Seq<char>>
    decreases names.len(),
{
    if names.len() == 0 {
        seq![]
    } else {
        let before = missing_names(s, names.drop_last());
        if present(withdraw_all(s, names.drop_last()), names.last()) {
            before
        } else {
            before.push(names.last())
        }
    }
}

/// In well-formed stock the name's position is the only one that carries it.
pub proof fn lemma_index_of_unique(s: Seq<(Seq<char>, nat)>, name: Seq<char>, i: int)
    requires
        names_unique(s),
        0 <= i < s.len(),
        s[i].0 == name,
    ensures
        present(s, name),
        index_of(s, name) == i,
{
    assert(present(s, name));
    let k = index_of(s, name);
    assert(s[k].0 == name);
}

/// A withdrawal keeps stock well-formed.
pub proof fn lemma_withdraw_one_wf(s: Seq<(Seq<char>, nat)>, name: Seq<char>)
    requires
        stock_wf(s),
    ensures
        stock_wf(withdraw_one(s, name)),
{
    if present(s, name) {
        let i = index_of(s, name);
        let r = withdraw_one(s, name);
        if s[i].1 <= 1 {
            assert forall|a: int, b: int| 0 <= a < b < r.len() implies r[a].0 != r[b].0 by {
                let a0 = if a < i { a } else { a + 1 };
                let b0 = if b < i { b } else { b + 1 };
                assert(r[a] == s[a0]);
                assert(r[b] == s[b0]);
            }
        }
    }
}

/// Withdrawing any list of names keeps stock well-formed.
pub proof fn lemma_withdraw_all_wf(s: Seq<(Seq<char>, nat)>, names: Seq<Seq<char>>)
    requires
        stock_wf(s),
    ensures
        stock_wf(withdraw_all(s, names)),
    decreases names.len(),
{
    if names.len() > 0 {
        lemma_withdraw_all_wf(s, names.drop_last());
        lemma_withdraw_one_wf(withdraw_all(s, names.drop_last()), names.last());
    }
}

/// Withdrawing a present name once: a count `C > 1` becomes `C - 1`, a count
/// of one removes the entry, and every other name keeps its stock.
pub proof fn lemma_withdraw_present(s: Seq<(Seq<char>, nat)>, name: Seq<char>, other: Seq<char>)
    requires
        stock_wf(s),
        present(s, name),
        other != name,
    ensures
        stock_of(s, name) > 1 ==> present(withdraw_all(s, seq![name]), name) && stock_of(
            withdraw_all(s, seq![name]),
            name,
        ) == stock_of(s, name) - 1,
        stock_of(s, name) == 1 ==> !present(withdraw_all(s, seq![name]), name),
        stock_of(withdraw_all(s, seq![name]), other) == stock_of(s, other),
        missing_names(s, seq![name]) == Seq::<Seq<char>>::empty(),
{
    let names = seq![name];
    assert(names.drop_last() =~= Seq::<Seq<char>>::empty());
    assert(names.last() == name);
    assert(withdraw_all(s, names.drop_last()) == s);
    assert(missing_names(s, names.drop_last()) =~= Seq::<Seq<char>>::empty());
    let r = withdraw_all(s, names);
    assert(r == withdraw_one(s, name));
    let i = index_of(s, name);
    lemma_withdraw_one_wf(s, name);
    if s[i].1 > 1 {
        lemma_index_of_unique(r, name, i);
    } else {
        if present(r, name) {
            let j = index_of(r, name);
            let j0 = if j < i { j } else { j + 1 };
            assert(r[j] == s[j0]);
        }
    }
    if present(s, other) {
        let o = index_of(s, other);
        let o2 = if s[i].1 > 1 || o < i { o } else { o - 1 };
        assert(r[o2] == s[o]);
        lemma_index_of_unique(r, other, o2);
    } else {
        if present(r, other) {
            let j = index_of(r, other);
            let j0 = if s[i].1 > 1 || j < i { j } else { j + 1 };
            assert(r[j].0 == s[j0].0);
        }
    }
}

/// Withdrawing an absent name leaves the stock as it was and reports the name.
pub proof fn lemma_withdraw_absent(s: Seq<(Seq<char>, nat)>, name: Seq<char>)
    requires
        !present(s, name),
    ensures
        withdraw_all(s, seq![name]) == s,
        missing_names(s, seq![name]) == seq![name],
{
    let names = seq![name];
    assert(names.drop_last() =~= Seq::<Seq<char>>::empty());
    assert(names.last() == name);
    assert(withdraw_all(s, names.drop_last()) == s);
    assert(missing_names(s, names.drop_last()) =~= Seq::<Seq<char>>::empty());
    assert(missing_names(s, names) =~= seq![name]);
}

/// `n` requests of one name against stock `S` of it: the stock ends at
/// `max(0, S - n)`, exactly `max(0, n - S)` requests find the name gone, and
/// the pool stays well-formed throughout, so no count ever falls below zero
/// and no withdrawal is lost.
pub proof fn lemma_repeated_withdraw(s: Seq<(Seq<char>, nat)>, name: Seq<char>, n: nat)
    requires
        stock_wf(s),
    ensures
        stock_wf(withdraw_all(s, Seq::new(n, |k: int| name))),
        stock_of(withdraw_all(s, Seq::new(n, |k: int| name)), name) == if n <= stock_of(s, name) {
            (stock_of(s, name) - n) as nat
        } else {
            0nat
        },
        missing_names(s, Seq::new(n, |k: int| name)).len() == if n <= stock_of(s, name) {
            0nat
        } else {
            (n - stock_of(s, name)) as nat
        },
    decreases n,
{
    let names = Seq::new(n, |k: int| name);
    lemma_withdraw_all_wf(s, names);
    if n > 0 {
        let prev = Seq::new((n - 1) as nat, |k: int| name);
        assert(names.drop_last() =~= prev);
        lemma_repeated_withdraw(s, name, (n - 1) as nat);
        let mid = withdraw_all(s, prev);
        if present(mid, name) {
            let i = index_of(mid, name);
            if mid[i].1 > 1 {
                lemma_index_of_unique(withdraw_one(mid, name), name, i);
            } else {
                let r = withdraw_one(mid, name);
                if present(r, name) {
                    let j = index_of(r, name);
                    let j0 = if j < i { j } else { j + 1 };
                    assert(r[j] == mid[j0]);
                }
            }
        }
    }
}

/// How many times `m` occurs among the requested names.
pub open spec fn occurrences(names: Seq<Seq<char>>, m: Seq<char>) -> nat
    decreases names.len(),
{
    if names.len() == 0 {
        0
    } else {
        occurrences(names.drop_last(), m) + if names.last() == m {
            1nat
        } else {
            0nat
        }
    }
}

/// One withdrawal of `n`, seen from any name `m`: `n` loses a unit if it has
/// one, every other name keeps its stock, and no name appears.
pub proof fn lemma_withdraw_one_stock(t: Seq<(Seq<char>, nat)>, n: Seq<char>, m: Seq<char>)
    requires
        stock_wf(t),
    ensures
        stock_of(withdraw_one(t, n), m) == if m == n && stock_of(t, m) > 0 {
            (stock_of(t, m) - 1) as nat
        } else {
            stock_of(t, m)
        },
        present(withdraw_one(t, n), m) ==> present(t, m),
{
    lemma_withdraw_one_wf(t, n);
    let r = withdraw_one(t, n);
    if present(t, n) {
        let i = index_of(t, n);
        let removed = t[i].1 <= 1;
        if present(r, m) {
            let j = index_of(r, m);
            let j0 = if removed && j >= i { j + 1 } else { j };
            assert(r[j].0 == t[j0].0);
            lemma_index_of_unique(t, m, j0);
            if !removed && j == i {
                assert(m == n);
            }
            if m == n && removed {
                assert(false);
            }
            if m != n {
                assert(r[j] == t[j0]);
            }
        } else if present(t, m) {
            let o = index_of(t, m);
            if !(m == n && removed) {
                let o2 = if removed && o > i { o - 1 } else { o };
                assert(r[o2].0 == t[o].0);
            }
        }
    }
}

/// Withdrawing any list of names, seen from any name `m` with stock `S`
/// requested `k` times: its stock ends at `max(0, S - k)`, so no withdrawal
/// is lost, no count falls below zero or rises, and no name appears. The
/// result depends only on how often each name is asked for.
pub proof fn lemma_withdraw_counts(s: Seq<(Seq<char>, nat)>, names: Seq<Seq<char>>, m: Seq<char>)
    requires
        stock_wf(s),
    ensures
        stock_of(withdraw_all(s, names), m) == if occurrences(names, m) <= stock_of(s, m) {
            (stock_of(s, m) - occurrences(names, m)) as nat
        } else {
            0nat
        },
        present(withdraw_all(s, names), m) ==> present(s, m),
    decreases names.len(),
{
    if names.len() > 0 {
        lemma_withdraw_counts(s, names.drop_last(), m);
        lemma_withdraw_all_wf(s, names.drop_last());
        lemma_withdraw_one_stock(withdraw_all(s, names.drop_last()), names.last(), m);
    }
}

/// The first position of `name` among the entries, if any.
pub fn position_of(entries: &Vec<(String, usize)>, name: &String) -> (r: Option<usize>)
    ensures
        match r {
            Some(i) => i < entries.len() && entries@[i as int].0@ == name@ && forall|k: int|
                0 <= k < i ==> entries@[k].0@ != name@,
            None => forall|k: int| 0 <= k < entries.len() ==> entries@[k].0@ != name@,
        },
{
    let mut j: usize = 0;
    while j < entries.len()
        invariant
            j <= entries.len(),
            forall|k: int| 0 <= k < j ==> entries@[k].0@ != name@,
        decreases entries.len() - j,
    {
        if entries[j].0 == *name {
            return Some(j);
        }
        j = j + 1;
    }
    None
}

/// The shared inventory: tools, drawn by withdrawal, and paint stock.
pub struct SharedResources {
    pub tools: Vec<(String, usize)>,
    pub paints: Vec<(String, usize)>,
}

/// The tool names a fresh pool carries, in order.
pub open spec fn default_tool_names() -> Seq<Seq<char>> {
    seq![
        "brush"@,
        "palette"@,
        "canvas"@,
        "eraser"@,
        "sponges"@,
        "roller"@,
        "sculpting tool"@,
        "water container"@,
        "rags"@,
        "tape"@,
    ]
}

/// The paint colours a fresh pool carries, in order.
pub open spec fn default_paint_names() -> Seq<Seq<char>> {
    seq![
        "red"@,
        "blue"@,
        "green"@,
        "yellow"@,
        "black"@,
        "white"@,
        "purple"@,
        "orange"@,
        "pink"@,
        "brown"@,
    ]
}

/// Each name paired with the same stock.
pub open spec fn stocked(names: Seq<Seq<char>>, count: nat) -> Seq<(Seq<char>, nat)> {
    names.map_values(|n: Seq<char>| (n, count))
}

impl SharedResources {
    pub open spec fn tools_view(&self) -> Seq<(Seq<char>, nat)> {
        entries_view(self.tools@)
    }

    pub open spec fn paints_view(&self) -> Seq<(Seq<char>, nat)> {
        entries_view(self.paints@)
    }

    /// Tools have unique names and positive counts; paints have unique names.
    pub open spec fn wf(&self) -> bool {
        stock_wf(self.tools_view()) && names_unique(self.paints_view())
    }

    /// The standard studio: ten tools at `TOTAL_ITEMS` each and ten paints at
    /// `TOTAL_WEIGHT_KG` each.
    pub fn default() -> (r: Self)
        ensures
            r.wf(),
            r.tools_view() == stocked(default_tool_names(), TOTAL_ITEMS as nat),
            r.paints_view() == stocked(default_paint_names(), TOTAL_WEIGHT_KG as nat),
    {
        proof {
            reveal_strlit("brush");
            reveal_strlit("palette");
            reveal_strlit("canvas");
            reveal_strlit("eraser");
            reveal_strlit("sponges");
            reveal_strlit("roller");
            reveal_strlit("sculpting tool");
            reveal_strlit("water container");
            reveal_strlit("rags");
            reveal_strlit("tape");
            reveal_strlit("red");
            reveal_strlit("blue");
            reveal_strlit("green");
            reveal_strlit("yellow");
            reveal_strlit("black");
            reveal_strlit("white");
            reveal_strlit("purple");
            reveal_strlit("orange");
            reveal_strlit("pink");
            reveal_strlit("brown");
        }
        let r = Self {
            tools: vec![
                ("brush".to_string(), TOTAL_ITEMS),
                ("palette".to_string(), TOTAL_ITEMS),
                ("canvas".to_string(), TOTAL_ITEMS),
                ("eraser".to_string(), TOTAL_ITEMS),
                ("sponges".to_string(), TOTAL_ITEMS),
                ("roller".to_string(), TOTAL_ITEMS),
                ("sculpting tool".to_string(), TOTAL_ITEMS),
                ("water container".to_string(), TOTAL_ITEMS),
                ("rags".to_string(), TOTAL_ITEMS),
                ("tape".to_string(), TOTAL_ITEMS),
            ],
            paints: vec![
                ("red".to_string(), TOTAL_WEIGHT_KG),
                ("blue".to_string(), TOTAL_WEIGHT_KG),
                ("green".to_string(), TOTAL_WEIGHT_KG),
                ("yellow".to_string(), TOTAL_WEIGHT_KG),
                ("black".to_string(), TOTAL_WEIGHT_KG),
                ("white".to_string(), TOTAL_WEIGHT_KG),
                ("purple".to_string(), TOTAL_WEIGHT_KG),
                ("orange".to_string(), TOTAL_WEIGHT_KG),
                ("pink".to_string(), TOTAL_WEIGHT_KG),
                ("brown".to_string(), TOTAL_WEIGHT_KG),
            ],
        };
        assert(r.tools_view() =~= stocked(default_tool_names(), TOTAL_ITEMS as nat));
        proof {
            let t = default_tool_names();
            let p = default_paint_names();
            assert(forall|i: int, j: int| 0 <= i < j < 10 ==> #[trigger] t[i] != #[trigger] t[j]) by {
                assert(t[0][0] == 'b' && t[1][0] == 'p' && t[2][0] == 'c' && t[3][0] == 'e');
                assert(t[4][0] == 's' && t[5][0] == 'r' && t[6][0] == 's' && t[7][0] == 'w');
                assert(t[8][0] == 'r' && t[9][0] == 't');
                assert(t[4].len() != t[6].len() && t[5].len() != t[8].len());
            }
            assert(forall|i: int, j: int| 0 <= i < j < 10 ==> #[trigger] p[i] != #[trigger] p[j]) by {
                assert(p[0][0] == 'r' && p[1][0] == 'b' && p[2][0] == 'g' && p[3][0] == 'y');
                assert(p[4][0] == 'b' && p[5][0] == 'w' && p[6][0] == 'p' && p[7][0] == 'o');
                assert(p[8][0] == 'p' && p[9][0] == 'b');
                assert(p[1].len() != p[4].len() && p[1].len() != p[9].len());
                assert(p[4].len() == p[9].len() && p[4][1] != p[9][1]);
                assert(p[6].len() != p[8].len());
            }
        }
        assert(r.paints_view() =~= stocked(default_paint_names(), TOTAL_WEIGHT_KG as nat));
        r
    }

    /// Withdraws one unit of each requested tool in turn. An entry whose count
    /// reaches zero leaves the pool. A name that is not present changes
    /// nothing; such names are handed back, in order, for the caller to report.
    pub fn take_out_resources(&mut self, tools: Vec<String>) -> (missing: Vec<String>)
        requires
            old(self).wf(),
        ensures
            final(self).wf(),
            final(self).tools_view() == withdraw_all(old(self).tools_view(), names_view(tools@)),
            names_view(missing@) == missing_names(old(self).tools_view(), names_view(tools@)),
            final(self).paints == old(self).paints,
    {
        let ghost start = self.tools_view();
        let ghost names = names_view(tools@);
        let mut missing: Vec<String> = Vec::new();
        let mut k: usize = 0;
        while k < tools.len()
            invariant
                k <= tools.len(),
                names == names_view(tools@),
                self.wf(),
                self.paints == old(self).paints,
                self.tools_view() == withdraw_all(start, names.take(k as int)),
                names_view(missing@) == missing_names(start, names.take(k as int)),
            decreases tools.len() - k,
        {
            let ghost before = self.tools_view();
            proof {
                assert(names.take(k + 1).drop_last() =~= names.take(k as int));
                assert(names.take(k + 1).last() == tools@[k as int]@);
            }
            match position_of(&self.tools, &tools[k]) {
                Some(pos) => {
                    proof {
                        lemma_index_of_unique(before, tools@[k as int]@, pos as int);
                    }
                    let quantity = self.tools[pos].1;
                    if quantity == 1 {
                        self.tools.remove(pos);
                        assert(self.tools_view() =~= before.remove(pos as int));
                    } else {
                        let name = self.tools[pos].0.clone();
                        self.tools.set(pos, (name, quantity - 1));
                        assert(self.tools_view() =~= before.update(
                            pos as int,
                            (tools@[k as int]@, (before[pos as int].1 - 1) as nat),
                        ));
                    }
                },
                None => {
                    missing.push(tools[k].clone());
                    assert(names_view(missing@) =~= missing_names(start, names.take(k as int)).push(
                        tools@[k as int]@,
                    ));
                },
            }
            proof {
                lemma_withdraw_one_wf(before, tools@[k as int]@);
            }
            k = k + 1;
        }
        assert(names.take(tools.len() as int) =~= names);
        missing
    }
}

} // verus!
