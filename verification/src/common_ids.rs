//! Names made from the shared id counter: each takes the id that the counter
//! handed out, so distinct ids give distinct names.

use vstd::prelude::*;
use crate::text::{lemma_nat_digits_injective, nat_digits, owned, push_u64_decimal};

verus! {

/// `prefix` followed by the decimal digits of `id`.
pub open spec fn numbered(prefix: Seq<char>, id: nat) -> Seq<char> {
    prefix + nat_digits(id)
}

/// The name of the analysis variable with id `id`: `v_<id>`.
pub fn generate_analysis_variable_name(id: usize) -> (r: String)
    ensures
        r@ == numbered("v_"@, id as nat),
{
    let mut r = owned("v_");
    push_u64_decimal(&mut r, id as u64);
    r
}

/// The name of the temporary with id `id`: `tmp.<id>`.
pub fn generate_translator_temp_name(id: usize) -> (r: String)
    ensures
        r@ == numbered("tmp."@, id as nat),
{
    let mut r = owned("tmp.");
    push_u64_decimal(&mut r, id as u64);
    r
}

/// The name of the label with id `id`: `abel.<id>`.
pub fn generate_translator_label_name(id: usize) -> (r: String)
    ensures
        r@ == numbered("abel."@, id as nat),
{
    let mut r = owned("abel.");
    push_u64_decimal(&mut r, id as u64);
    r
}

/// Names with one prefix and distinct ids differ.
pub proof fn lemma_numbered_distinct(prefix: Seq<char>, a: nat, b: nat)
    requires
        a != b,
    ensures
        numbered(prefix, a) != numbered(prefix, b),
{
    if numbered(prefix, a) == numbered(prefix, b) {
        assert(nat_digits(a) =~= numbered(prefix, a).subrange(prefix.len() as int, numbered(prefix, a).len() as int));
        assert(nat_digits(b) =~= numbered(prefix, b).subrange(prefix.len() as int, numbered(prefix, b).len() as int));
        lemma_nat_digits_injective(a, b);
    }
}

/// The three kinds of name made from the shared counter.
pub enum IdNameKind {
    /// `v_<id>`, from `generate_analysis_variable_name`.
    AnalysisVariable,
    /// `tmp.<id>`, from `generate_translator_temp_name`.
    TranslatorTemp,
    /// `abel.<id>`, from `generate_translator_label_name`.
    TranslatorLabel,
}

/// The name of kind `k` made from id `id`.
pub open spec fn id_name(k: IdNameKind, id: nat) -> Seq<char> {
    match k {
        IdNameKind::AnalysisVariable => numbered("v_"@, id),
        IdNameKind::TranslatorTemp => numbered("tmp."@, id),
        IdNameKind::TranslatorLabel => numbered("abel."@, id),
    }
}

/// Names made from the counter differ unless kind and id are both the same:
/// the three kinds never meet, and a counter that hands out each id once
/// never repeats a name.
pub proof fn lemma_id_names_distinct(k1: IdNameKind, a: nat, k2: IdNameKind, b: nat)
    requires
        k1 != k2 || a != b,
    ensures
        id_name(k1, a) != id_name(k2, b),
{
    reveal_strlit("v_");
    reveal_strlit("tmp.");
    reveal_strlit("abel.");
    if k1 == k2 {
        match k1 {
            IdNameKind::AnalysisVariable => lemma_numbered_distinct("v_"@, a, b),
            IdNameKind::TranslatorTemp => lemma_numbered_distinct("tmp."@, a, b),
            IdNameKind::TranslatorLabel => lemma_numbered_distinct("abel."@, a, b),
        }
    } else {
        assert(id_name(k1, a)[0] != id_name(k2, b)[0]);
    }
}

} // verus!
