//! Formulas in conjunctive normal form, and their text in the DIMACS format.

use crate::text::{
    decimal, lemma_line_feeds_concat, lemma_line_feeds_none, lemma_line_feeds_numeral,
    lemma_line_feeds_one, line_feeds, push_char, push_decimal, push_signed_decimal,
    signed_decimal,
};
use crate::var::VarStore;
use vstd::prelude::*;
use vstd::string::*;

verus! {

/// What a [`Cnf`] holds: its clauses in the order in which they were added,
/// each a sequence of literals, and the names of its registry by index.
pub struct CnfView {
    pub clauses: Seq<Seq<int>>,
    pub names: Seq<Seq<char>>,
}

/// Whether `literal` speaks of one of the variables `1..=n_var`: it is that
/// variable's index, or the negative of it for the negated variable.
pub open spec fn is_literal_of(literal: int, n_var: nat) -> bool {
    literal != 0 && -n_var <= literal <= n_var
}

/// Whether every literal of `clause` speaks of one of the variables
/// `1..=n_var`.
pub open spec fn is_clause_of(clause: Seq<int>, n_var: nat) -> bool {
    forall|i: int| 0 <= i < clause.len() ==> is_literal_of(#[trigger] clause[i], n_var)
}

/// Whether every clause of `clauses` is one over the variables `1..=n_var`.
pub open spec fn are_clauses_of(clauses: Seq<Seq<int>>, n_var: nat) -> bool {
    forall|k: int| 0 <= k < clauses.len() ==> is_clause_of(#[trigger] clauses[k], n_var)
}

/// The literals of a clause as they are held: as numbers of the machine.
pub open spec fn literals(clause: Seq<i32>) -> Seq<int> {
    clause.map_values(|literal: i32| literal as int)
}

/// The literals of `clause` as the DIMACS format writes them: each followed
/// by a blank.
pub open spec fn literals_text(clause: Seq<int>) -> Seq<char>
    decreases clause.len(),
{
    if clause.len() == 0 {
        Seq::empty()
    } else {
        literals_text(clause.drop_last()) + signed_decimal(clause.last()) + seq![' ']
    }
}

/// The line of `clause` in the DIMACS format, without the line feed: the
/// literals, and `0` to end them.
pub open spec fn clause_line(clause: Seq<int>) -> Seq<char> {
    literals_text(clause) + seq!['0']
}

/// The lines of `clauses` in the DIMACS format, each with its line feed.
pub open spec fn clause_lines(clauses: Seq<Seq<int>>) -> Seq<char>
    decreases clauses.len(),
{
    if clauses.len() == 0 {
        Seq::empty()
    } else {
        clause_lines(clauses.drop_last()) + clause_line(clauses.last()) + seq!['\n']
    }
}

/// The DIMACS text of `clauses` over `n_var` variables: the header
/// `p cnf <n_var> <number of clauses>`, then one line for each clause.
pub open spec fn dimacs_text(n_var: nat, clauses: Seq<Seq<int>>) -> Seq<char> {
    "p cnf "@ + decimal(n_var) + seq![' '] + decimal(clauses.len()) + seq!['\n'] + clause_lines(
        clauses,
    )
}

/// A formula in conjunctive normal form over the variables of a registry.
/// Clauses are only ever added.
pub struct Cnf {
    clauses: Vec<Vec<i32>>,
    var_store: VarStore,
}

impl View for Cnf {
    type V = CnfView;

    /// The clauses, their literals as numbers, and the names of the registry.
    closed spec fn view(&self) -> CnfView {
        CnfView {
            clauses: self.clauses@.map_values(|clause: Vec<i32>| literals(clause@)),
            names: self.var_store@,
        }
    }
}

impl Cnf {
    /// Whether every literal of every clause speaks of a variable that the
    /// registry holds.
    pub open spec fn wf(&self) -> bool {
        are_clauses_of(self@.clauses, self@.names.len())
    }

    /// The formula without clauses over the variables of `var_store`.
    pub fn new(var_store: VarStore) -> (cnf: Self)
        ensures
            cnf@.clauses == Seq::<Seq<int>>::empty(),
            cnf@.names == var_store@,
            cnf.wf(),
    {
        let clauses: Vec<Vec<i32>> = Vec::new();
        Self { clauses, var_store }
    }

    /// The registry of the formula's variables.
    pub fn var_store(&self) -> (store: &VarStore)
        ensures
            store@ == self@.names,
    {
        &self.var_store
    }

    /// The registry of the formula's variables, to allocate in. The clauses
    /// stay as they are.
    pub fn mut_var_store(&mut self) -> (store: &mut VarStore)
        ensures
            store@ == old(self)@.names,
            final(self)@.names == final(store)@,
            final(self)@.clauses == old(self)@.clauses,
    {
        &mut self.var_store
    }

    /// Adds `clause` behind the clauses that are there. Each of its literals
    /// has to speak of a variable that the registry holds.
    pub fn add_clause(&mut self, clause: Vec<i32>)
        requires
            is_clause_of(literals(clause@), old(self)@.names.len()),
        ensures
            final(self)@.clauses == old(self)@.clauses.push(literals(clause@)),
            final(self)@.names == old(self)@.names,
            old(self).wf() ==> final(self).wf(),
    {
        self.clauses.push(clause);
    }

    /// The text of the formula in the DIMACS format. It never fails.
    pub fn to_dimacs_string(&self) -> (result: Result<String, String>)
        ensures
            result matches Ok(text) && text@ == dimacs_text(self@.names.len(), self@.clauses),
    {
        let no_var = self.var_store.n_var();
        let no_clauses = self.clauses.len();
        let mut text = "p cnf ".to_owned();
        push_decimal(&mut text, no_var as u128);
        push_char(&mut text, ' ');
        push_decimal(&mut text, no_clauses as u128);
        push_char(&mut text, '\n');
        let ghost header = text@;
        let mut k: usize = 0;
        while k < self.clauses.len()
            invariant
                k <= self.clauses@.len(),
                text@ == header + clause_lines(self@.clauses.take(k as int)),
            decreases self.clauses@.len() - k,
        {
            let dimacs_line = match Cnf::to_dimacs_line(&self.clauses[k]) {
                Ok(line) => line,
                Err(e) => {
                    return Err(e);
                },
            };
            proof {
                let next = self@.clauses.take(k + 1);
                assert(next.drop_last() == self@.clauses.take(k as int));
            }
            text.append(dimacs_line.as_str());
            push_char(&mut text, '\n');
            k += 1;
        }
        assert(self@.clauses.take(k as int) == self@.clauses);
        Ok(text)
    }

    /// The line of `clause` in the DIMACS format, without the line feed.
    fn to_dimacs_line(clause: &Vec<i32>) -> (result: Result<String, String>)
        ensures
            result matches Ok(line) && line@ == clause_line(literals(clause@)),
    {
        let mut ret = String::new();
        let mut i: usize = 0;
        while i < clause.len()
            invariant
                i <= clause@.len(),
                ret@ == literals_text(literals(clause@).take(i as int)),
            decreases clause@.len() - i,
        {
            proof {
                let next = literals(clause@).take(i + 1);
                assert(next.drop_last() == literals(clause@).take(i as int));
            }
            push_signed_decimal(&mut ret, clause[i]);
            push_char(&mut ret, ' ');
            i += 1;
        }
        assert(literals(clause@).take(i as int) == literals(clause@));
        push_char(&mut ret, '0');
        Ok(ret)
    }
}

/// Clauses over some variables are clauses over more variables too.
pub proof fn lemma_clauses_over_more(clauses: Seq<Seq<int>>, n_var: nat, more: nat)
    requires
        are_clauses_of(clauses, n_var),
        n_var <= more,
    ensures
        are_clauses_of(clauses, more),
{
    assert forall|k: int| 0 <= k < clauses.len() implies is_clause_of(
        #[trigger] clauses[k],
        more,
    ) by {}
}

/// Clauses over some variables, put together, are clauses over them.
pub proof fn lemma_clauses_over_concat(first: Seq<Seq<int>>, second: Seq<Seq<int>>, n_var: nat)
    requires
        are_clauses_of(first, n_var),
        are_clauses_of(second, n_var),
    ensures
        are_clauses_of(first + second, n_var),
{
    let both = first + second;
    assert forall|k: int| 0 <= k < both.len() implies is_clause_of(#[trigger] both[k], n_var) by {}
}

/// Whether some clause of `clauses` holds the variable `v`, plain or negated.
pub open spec fn mentions(clauses: Seq<Seq<int>>, v: int) -> bool {
    exists|k: int, i: int|
        0 <= k < clauses.len() && 0 <= i < clauses[k].len() && (#[trigger] clauses[k][i] == v
            || clauses[k][i] == -v)
}

/// The variables that the clauses of `clauses` speak of.
pub open spec fn referenced(clauses: Seq<Seq<int>>) -> Set<int> {
    Set::new(|v: int| v > 0 && mentions(clauses, v))
}

/// Clauses put together speak of the variables of each part.
pub proof fn lemma_mentions_concat(first: Seq<Seq<int>>, second: Seq<Seq<int>>, v: int)
    ensures
        mentions(first + second, v) == (mentions(first, v) || mentions(second, v)),
{
    let both = first + second;
    if mentions(first, v) {
        let (k, i) = choose|k: int, i: int|
            0 <= k < first.len() && 0 <= i < first[k].len() && (#[trigger] first[k][i] == v
                || first[k][i] == -v);
        assert(both[k][i] == first[k][i]);
    }
    if mentions(second, v) {
        let (k, i) = choose|k: int, i: int|
            0 <= k < second.len() && 0 <= i < second[k].len() && (#[trigger] second[k][i] == v
                || second[k][i] == -v);
        assert(both[first.len() + k][i] == second[k][i]);
    }
    if mentions(both, v) {
        let (k, i) = choose|k: int, i: int|
            0 <= k < both.len() && 0 <= i < both[k].len() && (#[trigger] both[k][i] == v
                || both[k][i] == -v);
        if k < first.len() {
            assert(first[k][i] == both[k][i]);
        } else {
            assert(second[k - first.len()][i] == both[k][i]);
        }
    }
}

/// The line of a clause holds no line feed.
pub proof fn lemma_clause_line_is_one_line(clause: Seq<int>)
    ensures
        line_feeds(literals_text(clause)) == 0,
        line_feeds(clause_line(clause)) == 0,
    decreases clause.len(),
{
    if clause.len() > 0 {
        lemma_clause_line_is_one_line(clause.drop_last());
        lemma_line_feeds_numeral(clause.last());
        lemma_line_feeds_concat(literals_text(clause.drop_last()), signed_decimal(clause.last()));
        lemma_line_feeds_concat(
            literals_text(clause.drop_last()) + signed_decimal(clause.last()),
            seq![' '],
        );
        lemma_line_feeds_none(seq![' ']);
    }
    lemma_line_feeds_concat(literals_text(clause), seq!['0']);
    lemma_line_feeds_none(seq!['0']);
}

/// The lines of some clauses are as many as the clauses.
pub proof fn lemma_clause_lines_count(clauses: Seq<Seq<int>>)
    ensures
        line_feeds(clause_lines(clauses)) == clauses.len(),
    decreases clauses.len(),
{
    if clauses.len() > 0 {
        lemma_clause_lines_count(clauses.drop_last());
        lemma_clause_line_is_one_line(clauses.last());
        lemma_line_feeds_concat(clause_lines(clauses.drop_last()), clause_line(clauses.last()));
        lemma_line_feeds_concat(
            clause_lines(clauses.drop_last()) + clause_line(clauses.last()),
            seq!['\n'],
        );
        lemma_line_feeds_one();
    }
}

/// The DIMACS text has one line for the header and one for each clause, as
/// many as the header says.
pub proof fn lemma_dimacs_text_lines(n_var: nat, clauses: Seq<Seq<int>>)
    ensures
        line_feeds(dimacs_text(n_var, clauses)) == clauses.len() + 1,
        line_feeds(
            "p cnf "@ + decimal(n_var) + seq![' '] + decimal(clauses.len()) + seq!['\n'],
        ) == 1,
        line_feeds(clause_lines(clauses)) == clauses.len(),
{
    let a = "p cnf "@;
    let b = a + decimal(n_var);
    let c = b + seq![' '];
    let d = c + decimal(clauses.len());
    let e = d + seq!['\n'];
    reveal_strlit("p cnf ");
    lemma_line_feeds_none(a);
    lemma_line_feeds_numeral(n_var as int);
    lemma_line_feeds_concat(a, decimal(n_var));
    lemma_line_feeds_none(seq![' ']);
    lemma_line_feeds_concat(b, seq![' ']);
    lemma_line_feeds_numeral(clauses.len() as int);
    lemma_line_feeds_concat(c, decimal(clauses.len()));
    lemma_line_feeds_one();
    lemma_line_feeds_concat(d, seq!['\n']);
    lemma_clause_lines_count(clauses);
    lemma_line_feeds_concat(e, clause_lines(clauses));
}

/// The DIMACS text is a function of the number of variables and the clauses:
/// formulas that agree in these have the same text, however often it is
/// asked for.
pub proof fn lemma_dimacs_text_deterministic(first: CnfView, second: CnfView)
    requires
        first.clauses == second.clauses,
        first.names.len() == second.names.len(),
    ensures
        dimacs_text(first.names.len(), first.clauses) == dimacs_text(
            second.names.len(),
            second.clauses,
        ),
{
}

} // verus!
