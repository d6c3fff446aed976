//! The variable table: an ordered, append-only sequence of distinct
//! variable names.
//!
//! The first occurrence of an identifier assigns it the next dense index
//! (0, 1, 2, ...); later occurrences of the same text reuse that index.
//! The table is the sole naming authority: the expression tree stores
//! only these integer indices, and any consumer that exports variable
//! metadata must keep this exact order (index `i` is the `i`-th
//! discovered name).

use vstd::prelude::*;

verus! {

/// The views of a sequence of names.
pub open spec fn names_view(v: Seq<String>) -> Seq<Seq<char>> {
    v.map(|i: int, s: String| s@)
}

/// The least index where `name` stands in `vars`, or `-1` when it does
/// not.
pub open spec fn first_index_of(vars: Seq<Seq<char>>, name: Seq<char>) -> int
    decreases vars.len(),
{
    if vars.len() == 0 {
        -1
    } else if vars.first() == name {
        0
    } else {
        let r = first_index_of(vars.drop_first(), name);
        if r < 0 {
            -1
        } else {
            r + 1
        }
    }
}

/// What interning a name yields: the index assigned to it, and the table
/// afterwards — unchanged when the name was already present, extended by
/// the name otherwise.
pub open spec fn intern_spec(vars: Seq<Seq<char>>, name: Seq<char>) -> (int, Seq<Seq<char>>) {
    let j = first_index_of(vars, name);
    if j >= 0 {
        (j, vars)
    } else {
        (vars.len() as int, vars.push(name))
    }
}

/// [`first_index_of`] is the least matching index: when the name occurs
/// the result points at its first occurrence, and when it does not the
/// result is `-1`.
pub proof fn lemma_first_index_of(vars: Seq<Seq<char>>, name: Seq<char>)
    ensures
        first_index_of(vars, name) >= 0 ==> {
            &&& first_index_of(vars, name) < vars.len()
            &&& vars[first_index_of(vars, name)] == name
            &&& forall|k: int| 0 <= k < first_index_of(vars, name) ==> vars[k] != name
        },
        first_index_of(vars, name) < 0 ==> forall|k: int| 0 <= k < vars.len() ==> vars[k] != name,
    decreases vars.len(),
{
    if vars.len() == 0 {
    } else if vars.first() == name {
    } else {
        let rest = vars.drop_first();
        lemma_first_index_of(rest, name);
        let r = first_index_of(rest, name);
        assert(forall|k: int| 0 <= k < rest.len() ==> rest[k] == vars[k + 1]);
        if r >= 0 {
            assert(vars[r + 1] == rest[r]);
            assert forall|k: int| 0 <= k < r + 1 implies vars[k] != name by {
                if k > 0 {
                    assert(rest[k - 1] != name);
                }
            }
        } else {
            assert forall|k: int| 0 <= k < vars.len() implies vars[k] != name by {
                if k > 0 {
                    assert(rest[k - 1] != name);
                }
            }
        }
    }
}

/// Interns `name`: the index of its first occurrence if it is already in
/// the table, else the next dense index, appending the name.
pub fn intern_variable(variables: &mut Vec<String>, name: String) -> (index: usize)
    ensures
        index as int == intern_spec(names_view(old(variables)@), name@).0,
        names_view(final(variables)@) == intern_spec(names_view(old(variables)@), name@).1,
        index < final(variables)@.len(),
        final(variables)@[index as int]@ == name@,
{
    let ghost vars = names_view(variables@);
    proof {
        lemma_first_index_of(vars, name@);
    }
    let length = variables.len();
    let mut j: usize = 0;
    while j < length
        invariant
            j <= length,
            length == variables@.len(),
            vars == names_view(variables@),
            forall|k: int| 0 <= k < j ==> vars[k] != name@,
        decreases length - j,
    {
        let candidate = &variables[j];
        if crate::token::eq_str(candidate.as_str(), name.as_str()) {
            proof {
                lemma_first_index_of(vars, name@);
                assert(vars[j as int] == name@);
                assert(first_index_of(vars, name@) == j as int);
            }
            return j;
        }
        proof {
            assert(vars[j as int] == variables@[j as int]@);
        }
        j = j + 1;
    }
    proof {
        assert(first_index_of(vars, name@) < 0);
    }
    variables.push(name);
    proof {
        assert(names_view(variables@) =~= vars.push(variables@[length as int]@));
    }
    length
}

/// Interning is idempotent: once a name has been interned, interning the
/// same name again yields the same index and leaves the table unchanged,
/// so a repeated variable in one formula refers to one entry.
pub proof fn lemma_intern_idempotent(vars: Seq<Seq<char>>, name: Seq<char>)
    ensures
        intern_spec(intern_spec(vars, name).1, name).0 == intern_spec(vars, name).0,
        intern_spec(intern_spec(vars, name).1, name).1 == intern_spec(vars, name).1,
{
    lemma_first_index_of(vars, name);
    let (i1, v1) = intern_spec(vars, name);
    lemma_first_index_of(v1, name);
    if first_index_of(vars, name) < 0 {
        let j2 = first_index_of(v1, name);
        assert(v1[vars.len() as int] == name);
        if j2 < 0 {
            assert(v1[vars.len() as int] != name);
            assert(false);
        }
        if j2 < vars.len() {
            assert(vars[j2] == v1[j2]);
            assert(vars[j2] != name);
            assert(v1[j2] == name);
            assert(false);
        }
        assert(j2 == vars.len() as int);
    }
}

} // verus!
