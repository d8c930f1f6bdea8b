use vstd::prelude::*;

verus! {

/// No two entries of the whitelist belong to the same participant.
pub open spec fn keys_unique(s: Seq<(String, u128)>) -> bool {
    forall|i: int, j: int| 0 <= i < j < s.len() ==> s[i].0@ != s[j].0@
}

/// Whether `id` has an entry in the whitelist.
pub open spec fn has_entry(s: Seq<(String, u128)>, id: Seq<char>) -> bool {
    exists|i: int| 0 <= i < s.len() && s[i].0@ == id
}

/// The tokens credited to `id`: its entry's amount, or zero without one.
pub open spec fn balance_of(s: Seq<(String, u128)>, id: Seq<char>) -> nat
    decreases s.len(),
{
    if s.len() == 0 {
        0
    } else if s.last().0@ == id {
        s.last().1 as nat
    } else {
        balance_of(s.drop_last(), id)
    }
}

/// The tokens credited to all participants together.
pub open spec fn balance_sum(s: Seq<(String, u128)>) -> nat
    decreases s.len(),
{
    if s.len() == 0 {
        0
    } else {
        balance_sum(s.drop_last()) + s.last().1 as nat
    }
}

/// An entry's amount is the participant's balance.
pub proof fn lemma_balance_at(s: Seq<(String, u128)>, i: int)
    requires
        keys_unique(s),
        0 <= i < s.len(),
    ensures
        balance_of(s, s[i].0@) == s[i].1,
    decreases s.len(),
{
    if i < s.len() - 1 {
        assert(s[i].0@ != s.last().0@);
        assert(s.drop_last()[i] == s[i]);
        lemma_balance_at(s.drop_last(), i);
    }
}

/// A participant without an entry has a balance of zero.
pub proof fn lemma_balance_absent(s: Seq<(String, u128)>, id: Seq<char>)
    requires
        !has_entry(s, id),
    ensures
        balance_of(s, id) == 0,
    decreases s.len(),
{
    if s.len() > 0 {
        assert(s.last().0@ != id) by {
            if s.last().0@ == id {
                assert(s[s.len() - 1].0@ == id);
            }
        }
        assert forall|i: int| 0 <= i < s.drop_last().len() implies s.drop_last()[i].0@ != id by {
            assert(s.drop_last()[i] == s[i]);
        }
        lemma_balance_absent(s.drop_last(), id);
    }
}

/// The balance of every participant, whether or not it has an entry.
pub proof fn lemma_balance_of(s: Seq<(String, u128)>, id: Seq<char>)
    requires
        keys_unique(s),
    ensures
        has_entry(s, id) ==> exists|i: int|
            0 <= i < s.len() && s[i].0@ == id && balance_of(s, id) == s[i].1,
        !has_entry(s, id) ==> balance_of(s, id) == 0,
{
    if has_entry(s, id) {
        let i = choose|i: int| 0 <= i < s.len() && s[i].0@ == id;
        lemma_balance_at(s, i);
    } else {
        lemma_balance_absent(s, id);
    }
}

/// Changing one entry's amount changes the total by the difference.
pub proof fn lemma_sum_update(s: Seq<(String, u128)>, i: int, e: (String, u128))
    requires
        0 <= i < s.len(),
    ensures
        balance_sum(s.update(i, e)) + s[i].1 == balance_sum(s) + e.1,
    decreases s.len(),
{
    let t = s.update(i, e);
    if i == s.len() - 1 {
        assert(t.drop_last() =~= s.drop_last());
    } else {
        assert(t.drop_last() =~= s.drop_last().update(i, e));
        lemma_sum_update(s.drop_last(), i, e);
    }
}

/// The amounts of a prefix add up to no more than those of the whole list.
pub proof fn lemma_sum_prefix(s: Seq<(String, u128)>, i: int)
    requires
        0 <= i <= s.len(),
    ensures
        balance_sum(s.take(i)) <= balance_sum(s),
    decreases s.len(),
{
    if i < s.len() {
        assert(s.drop_last().take(i) =~= s.take(i));
        lemma_sum_prefix(s.drop_last(), i);
    } else {
        assert(s.take(i) =~= s);
    }
}

/// One entry's amount is no more than the whole whitelist's.
pub proof fn lemma_entry_le_sum(s: Seq<(String, u128)>, i: int)
    requires
        0 <= i < s.len(),
    ensures
        s[i].1 <= balance_sum(s),
    decreases s.len(),
{
    if i < s.len() - 1 {
        assert(s.drop_last()[i] == s[i]);
        lemma_entry_le_sum(s.drop_last(), i);
    }
}

/// A whitelist whose amounts are all zero adds up to zero.
pub proof fn lemma_sum_zero(s: Seq<(String, u128)>)
    requires
        forall|i: int| 0 <= i < s.len() ==> s[i].1 == 0,
    ensures
        balance_sum(s) == 0,
    decreases s.len(),
{
    if s.len() > 0 {
        assert forall|i: int| 0 <= i < s.drop_last().len() implies s.drop_last()[i].1 == 0 by {
            assert(s.drop_last()[i] == s[i]);
        }
        lemma_sum_zero(s.drop_last());
    }
}

/// The position of `id`'s entry, if it has one.
pub fn find_entry(entries: &Vec<(String, u128)>, id: &String) -> (r: Option<usize>)
    ensures
        r matches Some(i) ==> i < entries@.len() && entries@[i as int].0@ == id@,
        r is None <==> !has_entry(entries@, id@),
{
    let mut i: usize = 0;
    while i < entries.len()
        invariant
            i <= entries@.len(),
            forall|j: int| 0 <= j < i ==> entries@[j].0@ != id@,
        decreases entries.len() - i,
    {
        if entries[i].0 == *id {
            return Some(i);
        }
        i = i + 1;
    }
    None
}

/// The sum of all amounts in the whitelist.
pub fn total_of(entries: &Vec<(String, u128)>) -> (r: u128)
    requires
        balance_sum(entries@) <= u128::MAX,
    ensures
        r == balance_sum(entries@),
{
    let mut total: u128 = 0;
    let mut i: usize = 0;
    while i < entries.len()
        invariant
            i <= entries@.len(),
            total == balance_sum(entries@.take(i as int)),
            balance_sum(entries@) <= u128::MAX,
        decreases entries.len() - i,
    {
        assert(entries@.take(i + 1).drop_last() =~= entries@.take(i as int));
        proof {
            lemma_sum_prefix(entries@, i + 1);
        }
        total = total + entries[i].1;
        i = i + 1;
    }
    assert(entries@.take(i as int) =~= entries@);
    total
}

/// A whitelist whose amounts are all zero credits nobody.
pub proof fn lemma_balance_zero(s: Seq<(String, u128)>, id: Seq<char>)
    requires
        forall|i: int| 0 <= i < s.len() ==> s[i].1 == 0,
    ensures
        balance_of(s, id) == 0,
    decreases s.len(),
{
    if s.len() > 0 {
        assert(s.last() == s[s.len() - 1]);
        assert forall|i: int| 0 <= i < s.drop_last().len() implies s.drop_last()[i].1 == 0 by {
            assert(s.drop_last()[i] == s[i]);
        }
        lemma_balance_zero(s.drop_last(), id);
    }
}

/// The tokens that a run of purchases credits to `id`; each purchase is a
/// buyer and the tokens it bought.
pub open spec fn credited(purchases: Seq<(Seq<char>, nat)>, id: Seq<char>) -> nat
    decreases purchases.len(),
{
    if purchases.len() == 0 {
        0
    } else {
        credited(purchases.drop_last(), id) + if purchases.last().0 == id {
            purchases.last().1
        } else {
            0
        }
    }
}

/// Over a run of accepted purchases, each of which credits its buyer and
/// nobody else, a participant's balance never goes down, and it ends as its
/// first balance plus the tokens of every purchase that it made.
pub proof fn purchases_accumulate(
    states: Seq<Seq<(String, u128)>>,
    purchases: Seq<(Seq<char>, nat)>,
    id: Seq<char>,
)
    requires
        states.len() == purchases.len() + 1,
        forall|k: int, x: Seq<char>|
            #![trigger balance_of(states[k + 1], x)]
            0 <= k < purchases.len() ==> balance_of(states[k + 1], x) == balance_of(states[k], x)
                + if x == purchases[k].0 {
                purchases[k].1
            } else {
                0
            },
    ensures
        balance_of(states.last(), id) == balance_of(states[0], id) + credited(purchases, id),
        balance_of(states[0], id) <= balance_of(states.last(), id),
    decreases purchases.len(),
{
    if purchases.len() > 0 {
        let k = purchases.len() - 1;
        let (s, p) = (states.drop_last(), purchases.drop_last());
        assert forall|k2: int, x: Seq<char>|
            #![trigger balance_of(s[k2 + 1], x)]
            0 <= k2 < p.len() implies balance_of(s[k2 + 1], x) == balance_of(s[k2], x)
                + if x == p[k2].0 {
                p[k2].1
            } else {
                0
            } by {
            assert(balance_of(states[k2 + 1], x) == balance_of(states[k2], x) + if x
                == purchases[k2].0 {
                purchases[k2].1
            } else {
                0
            });
        }
        purchases_accumulate(s, p, id);
        assert(balance_of(states[k + 1], id) == balance_of(states[k], id) + if id
            == purchases[k].0 {
            purchases[k].1
        } else {
            0
        });
    }
}

/// Whether no two entries belong to the same participant.
pub fn keys_are_unique(entries: &Vec<(String, u128)>) -> (r: bool)
    ensures
        r == keys_unique(entries@),
{
    let mut j: usize = 0;
    while j < entries.len()
        invariant
            j <= entries@.len(),
            forall|a: int, b: int| 0 <= a < b < j ==> entries@[a].0@ != entries@[b].0@,
        decreases entries.len() - j,
    {
        let mut i: usize = 0;
        while i < j
            invariant
                i <= j < entries@.len(),
                forall|a: int| 0 <= a < i ==> entries@[a].0@ != entries@[j as int].0@,
            decreases j - i,
        {
            if entries[i].0 == entries[j].0 {
                assert(!keys_unique(entries@)) by {
                    assert(entries@[i as int].0@ == entries@[j as int].0@);
                }
                return false;
            }
            i = i + 1;
        }
        j = j + 1;
    }
    true
}

/// Whether the amounts of the whitelist add up to at most `limit`.
pub fn total_within(entries: &Vec<(String, u128)>, limit: u128) -> (r: bool)
    ensures
        r == (balance_sum(entries@) <= limit),
{
    let mut total: u128 = 0;
    let mut i: usize = 0;
    while i < entries.len()
        invariant
            i <= entries@.len(),
            total == balance_sum(entries@.take(i as int)),
            total <= limit,
        decreases entries.len() - i,
    {
        assert(entries@.take(i + 1).drop_last() =~= entries@.take(i as int));
        if entries[i].1 > limit - total {
            proof {
                lemma_sum_prefix(entries@, i + 1);
            }
            return false;
        }
        total = total + entries[i].1;
        i = i + 1;
    }
    assert(entries@.take(i as int) =~= entries@);
    true
}

} // verus!
