//! The two-tier environment: global variables and local overrides.
use vstd::prelude::*;

use crate::expression::WgslLiteral;
use crate::text::{i64_text, push_str};
use vstd::arithmetic::power2::pow2;

verus! {

/// The value bound to `key` by the first entry that names it.
pub open spec fn lookup_in(entries: Seq<(String, WgslLiteral)>, key: Seq<char>) -> Option<WgslLiteral>
    decreases entries.len(),
{
    if entries.len() == 0 {
        None
    } else if entries[0].0@ == key {
        Some(entries[0].1)
    } else {
        lookup_in(entries.drop_first(), key)
    }
}

/// The name of the `i`-th bit constant.
pub open spec fn bit_name(i: int) -> Seq<char> {
    seq!['B', 'I', 'T', '_'] + crate::text::decimal(i)
}

/// Whether `k` names one of the first `n` bit constants.
pub open spec fn is_bit_name(k: Seq<char>, n: int) -> bool {
    exists|j: int| 0 <= j < n && k == bit_name(j)
}

/// Variables visible to expressions. Overrides take priority over globals.
#[derive(Debug, Clone)]
pub struct WgslWorkspaceState {
    global_variables: Vec<(String, WgslLiteral)>,
    local_overrides: Vec<(String, WgslLiteral)>,
}

impl WgslWorkspaceState {
    pub closed spec fn globals(self) -> Seq<(String, WgslLiteral)> {
        self.global_variables@
    }

    pub closed spec fn overrides(self) -> Seq<(String, WgslLiteral)> {
        self.local_overrides@
    }

    /// Override first, then global; `None` when neither binds the name.
    pub open spec fn lookup(self, key: Seq<char>) -> Option<WgslLiteral> {
        match lookup_in(self.overrides(), key) {
            Some(v) => Some(v),
            None => lookup_in(self.globals(), key),
        }
    }

    /// An environment with no variables at all.
    pub fn empty() -> (r: Self)
        ensures
            r.globals().len() == 0,
            r.overrides().len() == 0,
            forall|k: Seq<char>| r.lookup(k) is None,
    {
        WgslWorkspaceState { global_variables: Vec::new(), local_overrides: Vec::new() }
    }

    /// The environment in which `BIT_0` .. `BIT_63` are bound to the integers
    /// with only that bit set, and nothing else is bound: no overrides, and no
    /// other global.
    pub open spec fn is_default(self) -> bool {
        &&& self.overrides().len() == 0
        &&& forall|i: int| 0 <= i < 64 ==> self.lookup(#[trigger] bit_name(i)) == Some(
            WgslLiteral::Integer((if i == 63 { i64::MIN as int } else { pow2(i as nat) as int }) as i64),
        )
        &&& forall|k: Seq<char>| !is_bit_name(k, 64) ==> #[trigger] self.lookup(k) is None
    }

    /// The default environment: see `is_default`.
    pub fn default() -> (r: Self)
        ensures
            r.is_default(),
    {
        let mut r = Self::empty();
        let mut i: u32 = 0;
        let mut bit: i64 = 1;
        proof { vstd::arithmetic::power2::lemma2_to64(); }
        while i < 64
            invariant
                i <= 64,
                r.overrides().len() == 0,
                i < 63 ==> bit == pow2(i as nat),
                i == 63 ==> bit == i64::MIN,
                forall|j: int| 0 <= j < i ==> r.lookup(#[trigger] bit_name(j)) == Some(
                    WgslLiteral::Integer((if j == 63 { i64::MIN as int } else { pow2(j as nat) as int }) as i64),
                ),
                forall|k: Seq<char>| !is_bit_name(k, i as int) ==> #[trigger] r.lookup(k) is None,
            decreases 64 - i,
        {
            let mut name = String::new();
            push_str(&mut name, "BIT_");
            let digits = i64_text(i as i64);
            push_str(&mut name, digits.as_str());
            proof {
                reveal_strlit("BIT_");
            }
            assert(name@ == bit_name(i as int));
            let ghost r_old = r;
            r.set_global(name, WgslLiteral::Integer(bit));
            proof {
                assert forall|k: Seq<char>| !is_bit_name(k, i + 1) implies #[trigger] r.lookup(k) is None by {
                    assert(k != bit_name(i as int));
                    assert(lookup_in(r.overrides(), k) is None);
                    assert(lookup_in(r_old.overrides(), k) is None);
                    assert(lookup_in(r.globals(), k) == lookup_in(r_old.globals(), k));
                    if is_bit_name(k, i as int) {
                        let j = choose|j: int| 0 <= j < i && k == bit_name(j);
                        assert(0 <= j < i + 1 && k == bit_name(j));
                    }
                    assert(r_old.lookup(k) is None);
                }
                assert forall|j: int| 0 <= j < i + 1 implies r.lookup(#[trigger] bit_name(j)) == Some(
                    WgslLiteral::Integer((if j == 63 { i64::MIN as int } else { pow2(j as nat) as int }) as i64),
                ) by {
                    if j < i {
                        lemma_bit_names_differ(j, i as int);
                    }
                }
            }
            if i < 62 {
                proof {
                    vstd::arithmetic::power2::lemma_pow2_adds(i as nat, 1);
                    vstd::arithmetic::power2::lemma2_to64_rest();
                    vstd::arithmetic::power2::lemma2_to64();
                    vstd::arithmetic::power2::lemma_pow2_strictly_increases((i + 1) as nat, 63);
                    assert(bit == pow2(i as nat));
                    assert(pow2((i + 1) as nat) == pow2(i as nat) * 2);
                    assert(pow2(63) == 0x8000_0000_0000_0000);
                    assert(pow2((i + 1) as nat) < pow2(63));
                }
                bit = bit * 2;
            } else if i == 62 {
                bit = i64::MIN;
            }
            i = i + 1;
        }
        r
    }

    /// Binds `key` to `value` among the globals, replacing an earlier binding.
    pub fn set_global(&mut self, key: String, value: WgslLiteral)
        ensures
            final(self).overrides() == old(self).overrides(),
            lookup_in(final(self).globals(), key@) == Some(value),
            forall|k: Seq<char>| k != key@ ==> lookup_in(final(self).globals(), k) == lookup_in(old(self).globals(), k),
    {
        let ghost key_view = key@;
        let ghost old_globals = self.global_variables@;
        let mut i: usize = 0;
        while i < self.global_variables.len()
            invariant
                i <= self.global_variables.len(),
                self.global_variables@ == old_globals,
                old_globals == old(self).global_variables@,
                self.local_overrides@ == old(self).local_overrides@,
                key@ == key_view,
                forall|j: int| 0 <= j < i ==> self.global_variables@[j].0@ != key_view,
            decreases self.global_variables.len() - i,
        {
            let same = self.global_variables[i].0.eq(&key);
            assert(same == (self.global_variables@[i as int].0@ == key@));
            if same {
                proof { lemma_lookup_update(old_globals, i as int, key, value); }
                self.global_variables.set(i, (key, value));
                assert forall|k: Seq<char>| k != key_view implies lookup_in(self.globals(), k)
                    == lookup_in(old(self).globals(), k) by {}
                return;
            }
            i = i + 1;
        }
        proof { lemma_lookup_push(old_globals, key, value); }
        self.global_variables.push((key, value));
        assert forall|k: Seq<char>| k != key_view implies lookup_in(self.globals(), k)
            == lookup_in(old(self).globals(), k) by {}
    }

    /// Binds `key` to `value` among the overrides, replacing an earlier binding.
    pub fn set_override(&mut self, key: String, value: WgslLiteral)
        ensures
            final(self).globals() == old(self).globals(),
            lookup_in(final(self).overrides(), key@) == Some(value),
            forall|k: Seq<char>| k != key@ ==> lookup_in(final(self).overrides(), k) == lookup_in(old(self).overrides(), k),
    {
        let ghost key_view = key@;
        let ghost old_entries = self.local_overrides@;
        let mut i: usize = 0;
        while i < self.local_overrides.len()
            invariant
                i <= self.local_overrides.len(),
                self.local_overrides@ == old_entries,
                old_entries == old(self).local_overrides@,
                self.global_variables@ == old(self).global_variables@,
                key@ == key_view,
                forall|j: int| 0 <= j < i ==> self.local_overrides@[j].0@ != key_view,
            decreases self.local_overrides.len() - i,
        {
            let same = self.local_overrides[i].0.eq(&key);
            if same {
                proof { lemma_lookup_update(old_entries, i as int, key, value); }
                self.local_overrides.set(i, (key, value));
                assert forall|k: Seq<char>| k != key_view implies lookup_in(self.overrides(), k)
                    == lookup_in(old(self).overrides(), k) by {}
                return;
            }
            i = i + 1;
        }
        proof { lemma_lookup_push(old_entries, key, value); }
        self.local_overrides.push((key, value));
        assert forall|k: Seq<char>| k != key_view implies lookup_in(self.overrides(), k)
            == lookup_in(old(self).overrides(), k) by {}
    }

    /// The value of `key`: its override if there is one, else its global.
    pub fn get(&self, key: &str) -> (r: Option<WgslLiteral>)
        ensures
            r == self.lookup(key@),
    {
        match find(&self.local_overrides, key) {
            Some(v) => Some(v),
            None => find(&self.global_variables, key),
        }
    }
}

fn find(entries: &Vec<(String, WgslLiteral)>, key: &str) -> (r: Option<WgslLiteral>)
    ensures
        r == lookup_in(entries@, key@),
{
    let mut i: usize = 0;
    let k = String::from_str(key);
    assert(entries@.subrange(0, entries@.len() as int) =~= entries@);
    while i < entries.len()
        invariant
            i <= entries.len(),
            k@ == key@,
            lookup_in(entries@, key@) == lookup_in(entries@.subrange(i as int, entries@.len() as int), key@),
        decreases entries.len() - i,
    {
        proof {
            let s = entries@.subrange(i as int, entries@.len() as int);
            assert(s.drop_first() =~= entries@.subrange(i + 1, entries@.len() as int));
        }
        if entries[i].0.eq(&k) {
            return Some(entries[i].1);
        }
        i = i + 1;
    }
    None
}

proof fn lemma_lookup_update(s: Seq<(String, WgslLiteral)>, i: int, key: String, value: WgslLiteral)
    requires
        0 <= i < s.len(),
        s[i].0@ == key@,
        forall|j: int| 0 <= j < i ==> s[j].0@ != key@,
    ensures
        lookup_in(s.update(i, (key, value)), key@) == Some(value),
        forall|k: Seq<char>| k != key@ ==> lookup_in(s.update(i, (key, value)), k) == lookup_in(s, k),
    decreases s.len(),
{
    let t = s.update(i, (key, value));
    if i > 0 {
        assert(t.drop_first() =~= s.drop_first().update(i - 1, (key, value)));
        lemma_lookup_update(s.drop_first(), i - 1, key, value);
    } else {
        assert(t.drop_first() =~= s.drop_first());
    }
    assert forall|k: Seq<char>| k != key@ implies lookup_in(t, k) == lookup_in(s, k) by {
        assert(lookup_in(t.drop_first(), k) == lookup_in(s.drop_first(), k));
    }
}

proof fn lemma_lookup_push(s: Seq<(String, WgslLiteral)>, key: String, value: WgslLiteral)
    requires
        forall|j: int| 0 <= j < s.len() ==> s[j].0@ != key@,
    ensures
        lookup_in(s.push((key, value)), key@) == Some(value),
        forall|k: Seq<char>| k != key@ ==> lookup_in(s.push((key, value)), k) == lookup_in(s, k),
    decreases s.len(),
{
    let t = s.push((key, value));
    if s.len() > 0 {
        assert(t.drop_first() =~= s.drop_first().push((key, value)));
        lemma_lookup_push(s.drop_first(), key, value);
        assert forall|k: Seq<char>| k != key@ implies lookup_in(t, k) == lookup_in(s, k) by {
            assert(lookup_in(t.drop_first(), k) == lookup_in(s.drop_first(), k));
        }
    } else {
        assert(t.drop_first() =~= Seq::<(String, WgslLiteral)>::empty());
        assert forall|k: Seq<char>| k != key@ implies lookup_in(t, k) == lookup_in(s, k) by {
            assert(lookup_in(t.drop_first(), k) is None);
        }
    }
}

proof fn lemma_bit_names_differ(a: int, b: int)
    requires
        0 <= a < b < 64,
    ensures
        bit_name(a) != bit_name(b),
{
    reveal_with_fuel(crate::text::decimal, 3);
    if bit_name(a) == bit_name(b) {
        assert(bit_name(a).subrange(4, bit_name(a).len() as int) =~= crate::text::decimal(a));
        assert(bit_name(b).subrange(4, bit_name(b).len() as int) =~= crate::text::decimal(b));
        let da = crate::text::decimal(a);
        let db = crate::text::decimal(b);
        assert(da == db);
        if a < 10 && b < 10 {
            assert(da[0] == db[0]);
        } else if a >= 10 && b >= 10 {
            assert(da[0] == db[0] && da[1] == db[1]);
            assert(a / 10 != b / 10 || a % 10 != b % 10);
        } else {
            assert(da.len() != db.len());
        }
    }
}

} // verus!
