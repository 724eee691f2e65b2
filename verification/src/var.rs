//! The variable registry: names against dense indices that start at 1.

use crate::text::{decimal, push_char, push_decimal};
use vstd::prelude::*;
use vstd::string::*;

verus! {

/// The index that a registry with the names `names` gives to `name`, if it
/// knows the name: one more than the name's position.
pub open spec fn index_of(names: Seq<Seq<char>>, name: Seq<char>) -> Option<nat> {
    if names.contains(name) {
        Some((names.index_of(name) + 1) as nat)
    } else {
        None
    }
}

/// The names of a registry after `name` was looked up or allocated in it: a
/// known name changes nothing, a new one is appended.
pub open spec fn with_name(names: Seq<Seq<char>>, name: Seq<char>) -> Seq<Seq<char>> {
    if names.contains(name) {
        names
    } else {
        names.push(name)
    }
}

/// A run of `k` zeros.
pub open spec fn zeros(k: nat) -> Seq<char> {
    Seq::new(k, |i: int| '0')
}

/// The synthesized name for the index `index`, its numeral padded with `pad`
/// zeros.
pub open spec fn extra_name(pad: nat, index: nat) -> Seq<char> {
    "EXTRA_VAR_"@ + zeros(pad) + decimal(index)
}

/// Whether `names` already holds the synthesized name, padded with `pad`
/// zeros, for the index that would be allocated next.
pub open spec fn extra_taken(names: Seq<Seq<char>>, pad: nat) -> bool {
    names.contains(extra_name(pad, names.len() + 1))
}

/// Whether `pad` is the least padding that gives a name not yet in `names`.
pub open spec fn is_extra_pad(names: Seq<Seq<char>>, pad: nat) -> bool {
    &&& !extra_taken(names, pad)
    &&& forall|k: nat| k < pad ==> extra_taken(names, k)
}

/// The padding of the next synthesized name: as few zeros as leave it unused.
/// This is 0 unless a caller has registered a name of that very form.
pub open spec fn extra_pad(names: Seq<Seq<char>>) -> nat {
    choose|pad: nat| is_extra_pad(names, pad)
}

/// The names of a registry after one extra variable was allocated in it.
pub open spec fn with_extra(names: Seq<Seq<char>>) -> Seq<Seq<char>> {
    names.push(extra_name(extra_pad(names), names.len() + 1))
}

/// The names of a registry after `k` extra variables were allocated in it.
pub open spec fn with_extras(names: Seq<Seq<char>>, k: nat) -> Seq<Seq<char>>
    decreases k,
{
    if k == 0 {
        names
    } else {
        with_extra(with_extras(names, (k - 1) as nat))
    }
}

/// The listing of a registry: one line `<index> <name>` per variable, by index.
pub open spec fn csv_text(names: Seq<Seq<char>>) -> Seq<char>
    decreases names.len(),
{
    if names.len() == 0 {
        Seq::empty()
    } else {
        csv_text(names.drop_last()) + decimal(names.len()) + seq![' '] + names.last() + seq!['\n']
    }
}

/// The length of the longest name in `names`.
pub open spec fn longest(names: Seq<Seq<char>>) -> nat
    decreases names.len(),
{
    if names.len() == 0 {
        0
    } else if names.last().len() > longest(names.drop_last()) {
        names.last().len()
    } else {
        longest(names.drop_last())
    }
}

/// The registry of variable names. Each name has one index; the indices are
/// 1, 2, 3, ... in the order in which the names were first seen, and no
/// variable is ever removed or renumbered.
pub struct VarStore(Vec<String>);

impl View for VarStore {
    type V = Seq<Seq<char>>;

    /// The names, the one with index `i + 1` at position `i`.
    closed spec fn view(&self) -> Seq<Seq<char>> {
        self.0@.map_values(|s: String| s@)
    }
}

impl VarStore {
    /// No name is in the registry twice.
    #[verifier::type_invariant]
    spec fn names_differ(&self) -> bool {
        self@.no_duplicates()
    }

    /// The number of variables of a registry is one that the machine holds.
    pub proof fn lemma_n_var_fits(&self)
        ensures
            self@.len() <= usize::MAX,
    {
        assert(self@.len() == self.0.len());
    }

    /// An empty registry.
    pub fn new() -> (store: Self)
        ensures
            store@ == Seq::<Seq<char>>::empty(),
    {
        VarStore(Vec::new())
    }

    /// The number of variables.
    pub fn n_var(&self) -> (n: usize)
        ensures
            n == self@.len(),
            self@.no_duplicates(),
    {
        proof {
            use_type_invariant(self);
        }
        self.0.len()
    }

    /// The index of `var_name`, if the registry knows the name.
    pub fn get(&self, var_name: &String) -> (found: Option<usize>)
        ensures
            match found {
                Some(index) => index_of(self@, var_name@) == Some(index as nat),
                None => index_of(self@, var_name@) is None,
            },
    {
        proof {
            use_type_invariant(self);
        }
        let mut i: usize = 0;
        while i < self.0.len()
            invariant
                i <= self.0.len(),
                self@.no_duplicates(),
                forall|j: int| 0 <= j < i ==> self@[j] != var_name@,
            decreases self.0.len() - i,
        {
            if self.0[i] == *var_name {
                assert(self@[i as int] == var_name@);
                return Some(i + 1);
            }
            i += 1;
        }
        None
    }

    /// Whether the registry knows `var_name`.
    pub fn contains(&self, var_name: &String) -> (known: bool)
        ensures
            known == self@.contains(var_name@),
    {
        self.get(var_name).is_some()
    }

    /// Appends a name that the registry does not hold yet.
    fn append(&mut self, var_name: String)
        requires
            !old(self)@.contains(var_name@),
        ensures
            final(self)@ == old(self)@.push(var_name@),
    {
        proof {
            use_type_invariant(&*self);
        }
        let ghost grown = old(self)@.push(var_name@);
        let mut names: Vec<String> = Vec::new();
        core::mem::swap(&mut self.0, &mut names);
        names.push(var_name);
        assert(names@.map_values(|s: String| s@) == grown);
        core::mem::swap(&mut self.0, &mut names);
    }

    /// The index of `var_name`: the one it has, or else the next unused one,
    /// which it gets.
    pub fn insert_and_get_index(&mut self, var_name: String) -> (index: usize)
        ensures
            final(self)@ == with_name(old(self)@, var_name@),
            index_of(final(self)@, var_name@) == Some(index as nat),
            !old(self)@.contains(var_name@) ==> index == old(self)@.len() + 1,
    {
        match self.get(&var_name) {
            Some(index) => index,
            None => {
                proof {
                    use_type_invariant(&*self);
                }
                let ghost name = var_name@;
                self.append(var_name);
                assert(self@[self@.len() - 1] == name);
                self.0.len()
            },
        }
    }

    /// Allocates a variable of its own for the caller and returns its index,
    /// the next unused one. Its name is `EXTRA_VAR_` and that index, with
    /// zeros before the number where the plain name is already in use.
    pub fn new_extra_var(&mut self) -> (index: usize)
        ensures
            final(self)@ == with_extra(old(self)@),
            index == old(self)@.len() + 1,
    {
        proof {
            use_type_invariant(&*self);
        }
        let ghost names = self@;
        let count = self.0.len();
        let mut prefix = "EXTRA_VAR_".to_owned();
        let ghost mut pad: nat = 0;
        loop
            invariant
                self@ == names,
                names == old(self)@,
                names.no_duplicates(),
                count == names.len(),
                prefix@ == "EXTRA_VAR_"@ + zeros(pad),
                pad <= longest(names),
                forall|k: nat| k < pad ==> extra_taken(names, k),
            decreases longest(names) - pad,
        {
            let mut candidate = prefix.clone();
            push_decimal(&mut candidate, count as u128 + 1);
            if !self.contains(&candidate) {
                proof {
                    lemma_extra_pad_unique(names, pad);
                }
                self.append(candidate);
                assert(self@.len() == self.0@.len());
                return self.0.len();
            }
            proof {
                lemma_longest_bounds(names, candidate@);
            }
            push_char(&mut prefix, '0');
            proof {
                pad = pad + 1;
            }
        }
    }

    /// The listing of the registry: one line `<index> <name>` per variable,
    /// in the order of the indices.
    pub fn to_csv_string(&self) -> (text: String)
        ensures
            text@ == csv_text(self@),
    {
        let mut text = String::new();
        let mut i: usize = 0;
        while i < self.0.len()
            invariant
                i <= self.0.len(),
                text@ == csv_text(self@.take(i as int)),
            decreases self.0.len() - i,
        {
            proof {
                let next = self@.take(i + 1);
                assert(next.drop_last() == self@.take(i as int));
            }
            push_decimal(&mut text, i as u128 + 1);
            push_char(&mut text, ' ');
            text.append(self.0[i].as_str());
            push_char(&mut text, '\n');
            i += 1;
        }
        assert(self@.take(i as int) == self@);
        text
    }
}

/// No name of a registry is longer than its longest.
proof fn lemma_longest_bounds(names: Seq<Seq<char>>, name: Seq<char>)
    requires
        names.contains(name),
    ensures
        name.len() <= longest(names),
    decreases names.len(),
{
    if names.last() != name {
        let i = choose|i: int| 0 <= i < names.len() && names[i] == name;
        assert(names.drop_last()[i] == name);
        lemma_longest_bounds(names.drop_last(), name);
    }
}

/// After a name was looked up or allocated, the registry holds it, at a
/// position within the registry, and has grown by one name at most.
pub proof fn lemma_with_name(names: Seq<Seq<char>>, name: Seq<char>)
    ensures
        with_name(names, name).contains(name),
        0 <= with_name(names, name).index_of(name) < with_name(names, name).len(),
        names.len() <= with_name(names, name).len() <= names.len() + 1,
        index_of(with_name(names, name), name) is Some,
{
    let grown = with_name(names, name);
    if !names.contains(name) {
        assert(grown[names.len() as int] == name);
    }
}

/// Two names with the same index are the same name.
pub proof fn lemma_index_of_injective(names: Seq<Seq<char>>, one: Seq<char>, other: Seq<char>)
    requires
        index_of(names, one) is Some,
        index_of(names, one) == index_of(names, other),
    ensures
        one == other,
{
}

/// In a registry without a name twice, the indices are `1..=n` for `n`
/// names: the name at position `i` has the index `i + 1`.
pub proof fn lemma_index_of_position(names: Seq<Seq<char>>, i: int)
    requires
        names.no_duplicates(),
        0 <= i < names.len(),
    ensures
        index_of(names, names[i]) == Some((i + 1) as nat),
{
}

/// Indices go in the order in which the names are first seen: a name that
/// the registry holds keeps its index whatever is looked up or allocated
/// after it, and a new name gets the first index that is not in use.
pub proof fn lemma_with_name_order(names: Seq<Seq<char>>, name: Seq<char>, earlier: Seq<char>)
    requires
        names.no_duplicates(),
    ensures
        with_name(names, name).no_duplicates(),
        names.contains(earlier) ==> index_of(with_name(names, name), earlier) == index_of(
            names,
            earlier,
        ),
        !names.contains(name) ==> index_of(with_name(names, name), name) == Some(
            names.len() + 1,
        ),
{
    let grown = with_name(names, name);
    lemma_with_name(names, name);
    if !names.contains(name) {
        assert forall|i: int, j: int| 0 <= i < grown.len() && 0 <= j < grown.len() && i
            != j implies grown[i] != grown[j] by {
            if i < names.len() {
                assert(names.contains(names[i]));
            }
            if j < names.len() {
                assert(names.contains(names[j]));
            }
        }
        assert(grown[names.len() as int] == name);
        lemma_index_of_position(grown, names.len() as int);
    }
    if names.contains(earlier) {
        let i = names.index_of(earlier);
        assert(names[i] == earlier);
        assert(grown[i] == earlier);
        lemma_index_of_position(names, i);
        lemma_index_of_position(grown, i);
    }
}

/// Some padding gives a name that is not in use: a name longer than all that
/// are.
proof fn lemma_extra_pad_exists(names: Seq<Seq<char>>, from: nat)
    requires
        forall|k: nat| k < from ==> extra_taken(names, k),
        from <= longest(names),
    ensures
        is_extra_pad(names, extra_pad(names)),
    decreases longest(names) - from,
{
    if extra_taken(names, from) {
        lemma_longest_bounds(names, extra_name(from, names.len() + 1));
        crate::text::lemma_decimal_digits(names.len() + 1);
        lemma_extra_pad_exists(names, from + 1);
    } else {
        assert(is_extra_pad(names, from));
    }
}

/// An extra variable never takes a name that is in use: the registry grows
/// by one name, and stays without a name twice.
pub proof fn lemma_with_extra_fresh(names: Seq<Seq<char>>)
    ensures
        with_extra(names).len() == names.len() + 1,
        !names.contains(with_extra(names).last()),
        names.no_duplicates() ==> with_extra(names).no_duplicates(),
        forall|i: int| 0 <= i < names.len() ==> with_extra(names)[i] == names[i],
{
    lemma_extra_pad_exists(names, 0);
    let name = extra_name(extra_pad(names), names.len() + 1);
    if names.no_duplicates() {
        lemma_with_name_order(names, name, name);
    }
}

/// At most one padding is the least free one.
pub proof fn lemma_extra_pad_unique(names: Seq<Seq<char>>, pad: nat)
    requires
        is_extra_pad(names, pad),
    ensures
        extra_pad(names) == pad,
{
    let other = extra_pad(names);
    assert(is_extra_pad(names, other));
    if other < pad {
        assert(extra_taken(names, other));
    } else if pad < other {
        assert(extra_taken(names, pad));
    }
}

/// Allocating `j` extra variables and then `k` more is allocating `j + k`.
pub proof fn lemma_with_extras_add(names: Seq<Seq<char>>, j: nat, k: nat)
    ensures
        with_extras(with_extras(names, j), k) == with_extras(names, j + k),
        with_extras(names, j).len() == names.len() + j,
    decreases k,
{
    lemma_with_extras_len(names, j);
    if k > 0 {
        lemma_with_extras_add(names, j, (k - 1) as nat);
    }
}

/// Each extra variable makes the registry longer by one name.
pub proof fn lemma_with_extras_len(names: Seq<Seq<char>>, k: nat)
    ensures
        with_extras(names, k).len() == names.len() + k,
    decreases k,
{
    if k > 0 {
        lemma_with_extras_len(names, (k - 1) as nat);
    }
}

} // verus!
