//! The scope stack as a mathematical model: what is declared, under which
//! target name, and what a name resolves to.

use vstd::prelude::*;
use vstd::relations::injective_on;
use vstd::set_lib::{lemma_int_range, lemma_len_subset, lemma_map_size, set_int_range};

use crate::syntax::span::Span;
use crate::text::{decimal, lemma_decimal_injective};

verus! {

/// A declared variable: the name that the source gives it and the name that
/// it has in the target text.
pub struct VariableModel {
    pub source_name: Seq<char>,
    pub target_name: Seq<char>,
}

/// The variables that one block declares, in the order of their
/// declarations, and the span of the block.
pub struct ScopeModel {
    pub variables: Seq<VariableModel>,
    pub span: Span,
}

/// The scope of a block that has declared nothing yet.
pub open spec fn empty_scope(span: Span) -> ScopeModel {
    ScopeModel { variables: Seq::empty(), span }
}

/// True when a variable of the scope has the target name `name`.
pub open spec fn taken(variables: Seq<VariableModel>, name: Seq<char>) -> bool {
    exists|i: int| 0 <= i < variables.len() && (#[trigger] variables[i]).target_name == name
}

/// `name` with the suffix `__n`.
pub open spec fn suffixed(name: Seq<char>, n: nat) -> Seq<char> {
    name + "__"@ + decimal(n)
}

/// True when `n` is the first suffix, counting from 2, that gives `name` a
/// target name which no variable of the scope has.
pub open spec fn is_first_free_suffix(variables: Seq<VariableModel>, name: Seq<char>, n: nat) -> bool {
    &&& n >= 2
    &&& !taken(variables, suffixed(name, n))
    &&& forall|m: nat| 2 <= m < n ==> taken(variables, #[trigger] suffixed(name, m))
}

/// The first suffix, counting from 2, that gives `name` a free target name.
pub open spec fn first_free_suffix(variables: Seq<VariableModel>, name: Seq<char>) -> nat {
    choose|n: nat| is_first_free_suffix(variables, name, n)
}

/// The target name that a new variable with the source name `name` gets in
/// the scope: `name` itself where that is free, else `name` with the first
/// free suffix.
pub open spec fn fresh_name(variables: Seq<VariableModel>, name: Seq<char>) -> Seq<char> {
    if !taken(variables, name) {
        name
    } else {
        suffixed(name, first_free_suffix(variables, name))
    }
}

/// The scope after it has declared `name`.
pub open spec fn declare_in(scope: ScopeModel, name: Seq<char>) -> ScopeModel {
    ScopeModel {
        variables: scope.variables.push(
            VariableModel { source_name: name, target_name: fresh_name(scope.variables, name) },
        ),
        span: scope.span,
    }
}

/// The scopes after the innermost one has declared `name`.
pub open spec fn declare(scopes: Seq<ScopeModel>, name: Seq<char>) -> Seq<ScopeModel> {
    scopes.update(scopes.len() - 1, declare_in(scopes.last(), name))
}

/// The target name of the variable that was declared last under the source
/// name `name`, if there is one.
pub open spec fn lookup(variables: Seq<VariableModel>, name: Seq<char>) -> Option<Seq<char>>
    decreases variables.len(),
{
    if variables.len() == 0 {
        None
    } else if variables.last().source_name == name {
        Some(variables.last().target_name)
    } else {
        lookup(variables.drop_last(), name)
    }
}

/// What `name` resolves to: the innermost scope that declares it decides, and
/// in that scope the last declaration.
pub open spec fn resolve(scopes: Seq<ScopeModel>, name: Seq<char>) -> Option<Seq<char>>
    decreases scopes.len(),
{
    if scopes.len() == 0 {
        None
    } else {
        match lookup(scopes.last().variables, name) {
            Some(target) => Some(target),
            None => resolve(scopes.drop_last(), name),
        }
    }
}

/// True when no two variables of the scope have the same target name.
pub open spec fn distinct_targets(variables: Seq<VariableModel>) -> bool {
    forall|i: int, j: int|
        0 <= i < j < variables.len() ==> (#[trigger] variables[i]).target_name != (
        #[trigger] variables[j]).target_name
}

/// True when the stack holds a scope and every scope has distinct target
/// names.
pub open spec fn well_formed(scopes: Seq<ScopeModel>) -> bool {
    &&& scopes.len() >= 1
    &&& forall|k: int| 0 <= k < scopes.len() ==> distinct_targets((#[trigger] scopes[k]).variables)
}

/// The target names of the variables, in their order.
pub open spec fn target_names(variables: Seq<VariableModel>) -> Seq<Seq<char>> {
    Seq::new(variables.len(), |i: int| variables[i].target_name)
}

/// Different suffixes give different names.
pub proof fn lemma_suffixed_injective(name: Seq<char>, a: nat, b: nat)
    requires
        suffixed(name, a) == suffixed(name, b),
    ensures
        a == b,
{
    let start = (name + "__"@).len() as int;
    let x = suffixed(name, a);
    let y = suffixed(name, b);
    assert(decimal(a) =~= x.subrange(start, x.len() as int));
    assert(decimal(b) =~= y.subrange(start, y.len() as int));
    lemma_decimal_injective(a, b);
}

/// Where every suffix from 2 up to `n` is taken, the scope has at least as
/// many variables as there are such suffixes: a free suffix is found before
/// the count of the variables, and two more, is passed.
#[verifier::rlimit(30)]
pub proof fn lemma_taken_suffixes_bound(variables: Seq<VariableModel>, name: Seq<char>, n: nat)
    requires
        n >= 2,
        forall|m: nat| 2 <= m < n ==> taken(variables, #[trigger] suffixed(name, m)),
    ensures
        n - 2 <= variables.len(),
{
    let suffixes = set_int_range(2, n as int);
    let name_of = |m: int| suffixed(name, m as nat);
    let names = suffixes.map(name_of);
    let targets = target_names(variables).to_set();
    lemma_int_range(2, n as int);
    assert(injective_on(name_of, suffixes)) by {
        assert forall|a: int, b: int|
            suffixes.contains(a) && suffixes.contains(b) && #[trigger] name_of(a)
                == #[trigger] name_of(b) implies a == b by {
            lemma_suffixed_injective(name, a as nat, b as nat);
        }
    }
    lemma_map_size(suffixes, names, name_of);
    assert(names.subset_of(targets)) by {
        assert forall|text: Seq<char>| names.contains(text) implies targets.contains(text) by {
            let m = choose|m: int| suffixes.contains(m) && name_of(m) == text;
            assert(taken(variables, suffixed(name, m as nat)));
            let i = choose|i: int|
                0 <= i < variables.len() && (#[trigger] variables[i]).target_name == text;
            assert(target_names(variables)[i] == text);
        }
    }
    target_names(variables).lemma_cardinality_of_set();
    lemma_len_subset(names, targets);
}

/// Some suffix is free, so [`first_free_suffix`] is the first free one.
pub proof fn lemma_first_free_suffix(variables: Seq<VariableModel>, name: Seq<char>)
    ensures
        is_first_free_suffix(variables, name, first_free_suffix(variables, name)),
        first_free_suffix(variables, name) <= variables.len() + 2,
{
    lemma_free_suffix_from(variables, name, 2);
    let n = first_free_suffix(variables, name);
    lemma_taken_suffixes_bound(variables, name, n);
}

/// Where every suffix from 2 up to `n` is taken, a first free suffix exists.
proof fn lemma_free_suffix_from(variables: Seq<VariableModel>, name: Seq<char>, n: nat)
    requires
        n >= 2,
        forall|m: nat| 2 <= m < n ==> taken(variables, #[trigger] suffixed(name, m)),
    ensures
        exists|k: nat| is_first_free_suffix(variables, name, k),
    decreases variables.len() + 2 - n,
{
    lemma_taken_suffixes_bound(variables, name, n);
    if taken(variables, suffixed(name, n)) {
        lemma_taken_suffixes_bound(variables, name, n + 1);
        lemma_free_suffix_from(variables, name, n + 1);
    } else {
        assert(is_first_free_suffix(variables, name, n));
    }
}

/// The first free suffix is the only one that is free after taken ones.
pub proof fn lemma_first_free_suffix_unique(variables: Seq<VariableModel>, name: Seq<char>, n: nat)
    requires
        is_first_free_suffix(variables, name, n),
    ensures
        first_free_suffix(variables, name) == n,
{
    let k = first_free_suffix(variables, name);
    assert(is_first_free_suffix(variables, name, k));
    if k < n {
        assert(taken(variables, suffixed(name, k)));
    }
    if n < k {
        assert(taken(variables, suffixed(name, n)));
    }
}

/// The target name of a new variable is one that no variable of the scope
/// has, so the target names stay distinct.
pub proof fn lemma_declare_distinct(scope: ScopeModel, name: Seq<char>)
    requires
        distinct_targets(scope.variables),
    ensures
        !taken(scope.variables, fresh_name(scope.variables, name)),
        distinct_targets(declare_in(scope, name).variables),
{
    lemma_first_free_suffix(scope.variables, name);
    let after = declare_in(scope, name).variables;
    assert forall|i: int, j: int| 0 <= i < j < after.len() implies (#[trigger] after[i]).target_name
        != (#[trigger] after[j]).target_name by {
        if j == scope.variables.len() {
            assert(after[i] == scope.variables[i]);
        } else {
            assert(after[i] == scope.variables[i]);
            assert(after[j] == scope.variables[j]);
        }
    }
}

/// Shadowing: once a scope has declared `name`, `name` resolves to the
/// target name that this declaration got, whatever was declared before, in
/// this scope or in an outer one.
pub proof fn lemma_declared_name_resolves(scopes: Seq<ScopeModel>, name: Seq<char>)
    requires
        scopes.len() >= 1,
    ensures
        resolve(declare(scopes, name), name) == Some(
            fresh_name(scopes.last().variables, name),
        ),
{
    let after = declare(scopes, name);
    let declared = after.last().variables;
    assert(declared.last().source_name == name);
    assert(lookup(declared, name) == Some(fresh_name(scopes.last().variables, name)));
}

/// A declaration changes what its own name resolves to, and nothing else:
/// every other name resolves as before.
pub proof fn lemma_other_names_resolve_as_before(
    scopes: Seq<ScopeModel>,
    name: Seq<char>,
    other: Seq<char>,
)
    requires
        scopes.len() >= 1,
        other != name,
    ensures
        resolve(declare(scopes, name), other) == resolve(scopes, other),
{
    let after = declare(scopes, name);
    let declared = after.last().variables;
    assert(declared.drop_last() =~= scopes.last().variables);
    assert(lookup(declared, other) == lookup(scopes.last().variables, other));
    assert(after.drop_last() =~= scopes.drop_last());
}

/// A declaration keeps every variable that was there, under the target name
/// that it had: no earlier binding is renamed.
pub proof fn lemma_declare_keeps_earlier(scopes: Seq<ScopeModel>, name: Seq<char>)
    requires
        scopes.len() >= 1,
    ensures
        declare(scopes, name).len() == scopes.len(),
        declare(scopes, name).drop_last() == scopes.drop_last(),
        declare(scopes, name).last().variables.drop_last() == scopes.last().variables,
        declare(scopes, name).last().variables.last().source_name == name,
{
    let after = declare(scopes, name);
    assert(after.drop_last() =~= scopes.drop_last());
    assert(after.last().variables.drop_last() =~= scopes.last().variables);
}

/// A declaration keeps the stack well formed: the new target name differs
/// from every target name of its scope.
pub proof fn lemma_declare_well_formed(scopes: Seq<ScopeModel>, name: Seq<char>)
    requires
        well_formed(scopes),
    ensures
        well_formed(declare(scopes, name)),
        !taken(scopes.last().variables, fresh_name(scopes.last().variables, name)),
{
    lemma_declare_distinct(scopes.last(), name);
    let after = declare(scopes, name);
    assert forall|k: int| 0 <= k < after.len() implies distinct_targets(
        (#[trigger] after[k]).variables,
    ) by {
        if k < scopes.len() - 1 {
            assert(after[k] == scopes[k]);
        }
    }
}

/// Two declarations of one name in one scope get different target names,
/// and the name resolves to the second.
pub proof fn lemma_redeclared_name(scopes: Seq<ScopeModel>, name: Seq<char>)
    requires
        well_formed(scopes),
    ensures
        ({
            let first = fresh_name(scopes.last().variables, name);
            let once = declare(scopes, name);
            let second = fresh_name(once.last().variables, name);
            &&& first != second
            &&& resolve(declare(once, name), name) == Some(second)
        }),
{
    let once = declare(scopes, name);
    lemma_declare_well_formed(scopes, name);
    lemma_declare_well_formed(once, name);
    lemma_declared_name_resolves(once, name);
    let first = fresh_name(scopes.last().variables, name);
    assert(once.last().variables.last().target_name == first);
    assert(taken(once.last().variables, first));
}

/// Nothing resolves in a stack whose scopes have declared nothing.
pub proof fn lemma_nothing_declared(span: Span, name: Seq<char>)
    ensures
        resolve(seq![empty_scope(span)], name) is None,
{
    let scopes = seq![empty_scope(span)];
    assert(scopes.last().variables.len() == 0);
    assert(scopes.drop_last().len() == 0);
    assert(lookup(scopes.last().variables, name) is None);
    assert(resolve(scopes.drop_last(), name) is None);
}

} // verus!
