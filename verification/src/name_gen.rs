//! The counter that makes temporary variables, labels and renamed variables unique.

use vstd::prelude::*;
use crate::text::{
    lemma_nat_digits_injective, lemma_nat_digits_shape, nat_digits, owned, push_str, push_u64_decimal,
};

verus! {

/// A counter shared by all passes; every name it hands out carries the
/// counter's value at the time, and the counter then goes up by one.
#[derive(Debug, Default)]
pub struct UniqueNameGenerator {
    counter: u32,
}

/// The name of the `n`-th temporary variable.
pub open spec fn temp_name(n: nat) -> Seq<char> {
    "tmp"@ + nat_digits(n)
}

/// The name of the `n`-th IR label.
pub open spec fn temp_label_name(n: nat) -> Seq<char> {
    "label"@ + nat_digits(n)
}

/// `base` qualified by the counter value `n`: `base.n`.
pub open spec fn qualified_name(base: Seq<char>, n: nat) -> Seq<char> {
    base + "."@ + nat_digits(n)
}

impl UniqueNameGenerator {
    /// The counter's current value.
    pub closed spec fn count(&self) -> nat {
        self.counter as nat
    }

    /// A generator whose counter starts at zero.
    pub fn new() -> (r: Self)
        ensures
            r.count() == 0,
    {
        UniqueNameGenerator { counter: 0 }
    }

    /// A fresh temporary variable name `tmp<n>`.
    pub fn new_temp_var(&mut self) -> (r: String)
        requires
            old(self).count() < u32::MAX,
        ensures
            r@ == temp_name(old(self).count()),
            final(self).count() == old(self).count() + 1,
    {
        let current_value = self.counter;
        self.counter = self.counter + 1;
        let mut r = owned("tmp");
        push_u64_decimal(&mut r, current_value as u64);
        r
    }

    /// A fresh IR label name `label<n>`.
    pub fn new_temp_label(&mut self) -> (r: String)
        requires
            old(self).count() < u32::MAX,
        ensures
            r@ == temp_label_name(old(self).count()),
            final(self).count() == old(self).count() + 1,
    {
        let current_value = self.counter;
        self.counter = self.counter + 1;
        let mut r = owned("label");
        push_u64_decimal(&mut r, current_value as u64);
        r
    }

    /// A fresh label `name.<n>`.
    pub fn new_label(&mut self, name: &str) -> (r: String)
        requires
            old(self).count() < u32::MAX,
        ensures
            r@ == qualified_name(name@, old(self).count()),
            final(self).count() == old(self).count() + 1,
    {
        let current_value = self.counter;
        self.counter = self.counter + 1;
        let mut r = owned(name);
        push_str(&mut r, ".");
        push_u64_decimal(&mut r, current_value as u64);
        r
    }

    /// A fresh loop label `name.<n>`.
    pub fn new_loop_label(&mut self, name: &str) -> (r: String)
        requires
            old(self).count() < u32::MAX,
        ensures
            r@ == qualified_name(name@, old(self).count()),
            final(self).count() == old(self).count() + 1,
    {
        self.new_label(name)
    }

    /// A fresh name `name.<n>` for a variable called `name` in the source.
    pub fn new_variable_name(&mut self, name: String) -> (r: String)
        requires
            old(self).count() < u32::MAX,
        ensures
            r@ == qualified_name(name@, old(self).count()),
            final(self).count() == old(self).count() + 1,
    {
        let current_value = self.counter;
        self.counter = self.counter + 1;
        let mut r = name;
        push_str(&mut r, ".");
        push_u64_decimal(&mut r, current_value as u64);
        r
    }
}

/// Temporary names handed out at different counter values differ.
pub proof fn lemma_temp_names_distinct(a: nat, b: nat)
    requires
        a != b,
    ensures
        temp_name(a) != temp_name(b),
        temp_label_name(a) != temp_label_name(b),
{
    reveal_strlit("tmp");
    reveal_strlit("label");
    if temp_name(a) == temp_name(b) {
        assert(nat_digits(a) =~= temp_name(a).subrange(3, temp_name(a).len() as int));
        assert(nat_digits(b) =~= temp_name(b).subrange(3, temp_name(b).len() as int));
        lemma_nat_digits_injective(a, b);
    }
    if temp_label_name(a) == temp_label_name(b) {
        assert(nat_digits(a) =~= temp_label_name(a).subrange(5, temp_label_name(a).len() as int));
        assert(nat_digits(b) =~= temp_label_name(b).subrange(5, temp_label_name(b).len() as int));
        lemma_nat_digits_injective(a, b);
    }
}

/// The kinds of name the generator hands out: `tmp<n>` (`new_temp_var`),
/// `label<n>` (`new_temp_label`) and `base.<n>` (`new_label`,
/// `new_loop_label`, `new_variable_name`).
pub enum NameKind {
    TempVar,
    TempLabel,
    Qualified(Seq<char>),
}

/// The name of kind `k` handed out at counter value `n`.
pub open spec fn generated_name(k: NameKind, n: nat) -> Seq<char> {
    match k {
        NameKind::TempVar => temp_name(n),
        NameKind::TempLabel => temp_label_name(n),
        NameKind::Qualified(base) => qualified_name(base, n),
    }
}

proof fn lemma_qualified_distinct(x: Seq<char>, a: nat, y: Seq<char>, b: nat)
    requires
        a != b,
    ensures
        qualified_name(x, a) != qualified_name(y, b),
{
    reveal_strlit(".");
    lemma_nat_digits_shape(a);
    lemma_nat_digits_shape(b);
    let p = qualified_name(x, a);
    let q = qualified_name(y, b);
    let xs = x + "."@;
    let ys = y + "."@;
    assert(xs.len() == x.len() + 1 && ys.len() == y.len() + 1);
    assert(p == xs + nat_digits(a) && q == ys + nat_digits(b));
    assert(p.len() == xs.len() + nat_digits(a).len());
    assert(q.len() == ys.len() + nat_digits(b).len());
    if p == q {
        assert(p.len() == q.len());
        if x.len() < y.len() {
            let k: int = y.len() - xs.len();
            assert(0 <= k < nat_digits(a).len());
            assert(p[y.len() as int] == nat_digits(a)[k]);
            assert('0' <= nat_digits(a)[k] <= '9');
            assert(q[y.len() as int] == '.');
        } else if y.len() < x.len() {
            let k: int = x.len() - ys.len();
            assert(0 <= k < nat_digits(b).len());
            assert(q[x.len() as int] == nat_digits(b)[k]);
            assert('0' <= nat_digits(b)[k] <= '9');
            assert(p[x.len() as int] == '.');
        } else {
            assert(nat_digits(a) =~= p.subrange(x.len() + 1int, p.len() as int));
            assert(nat_digits(b) =~= q.subrange(y.len() + 1int, q.len() as int));
            lemma_nat_digits_injective(a, b);
        }
    }
}

proof fn lemma_plain_not_qualified(prefix: Seq<char>, a: nat, y: Seq<char>, b: nat)
    requires
        forall|i: int| 0 <= i < prefix.len() ==> #[trigger] prefix[i] != '.',
    ensures
        prefix + nat_digits(a) != qualified_name(y, b),
{
    reveal_strlit(".");
    lemma_nat_digits_shape(a);
    let p = prefix + nat_digits(a);
    let q = qualified_name(y, b);
    let ys = y + "."@;
    assert(ys.len() == y.len() + 1 && q == ys + nat_digits(b));
    assert(ys[y.len() as int] == '.');
    if p == q {
        assert(q[y.len() as int] == '.');
        if y.len() < prefix.len() {
            assert(p[y.len() as int] == prefix[y.len() as int]);
        } else {
            assert(p[y.len() as int] == nat_digits(a)[y.len() - prefix.len()]);
        }
    }
}

/// Names handed out at different counter values differ, whatever their kinds
/// and whatever source names they qualify: one generator never hands out the
/// same name twice.
pub proof fn lemma_generated_names_distinct(k1: NameKind, a: nat, k2: NameKind, b: nat)
    requires
        a != b,
    ensures
        generated_name(k1, a) != generated_name(k2, b),
{
    reveal_strlit("tmp");
    reveal_strlit("label");
    lemma_temp_names_distinct(a, b);
    match (k1, k2) {
        (NameKind::Qualified(x), NameKind::Qualified(y)) => {
            lemma_qualified_distinct(x, a, y, b);
        },
        (NameKind::Qualified(x), NameKind::TempVar) => {
            lemma_plain_not_qualified("tmp"@, b, x, a);
        },
        (NameKind::Qualified(x), NameKind::TempLabel) => {
            lemma_plain_not_qualified("label"@, b, x, a);
        },
        (NameKind::TempVar, NameKind::Qualified(y)) => {
            lemma_plain_not_qualified("tmp"@, a, y, b);
        },
        (NameKind::TempLabel, NameKind::Qualified(y)) => {
            lemma_plain_not_qualified("label"@, a, y, b);
        },
        (NameKind::TempVar, NameKind::TempLabel) => {
            assert(temp_name(a)[0] != temp_label_name(b)[0]);
        },
        (NameKind::TempLabel, NameKind::TempVar) => {
            assert(temp_name(b)[0] != temp_label_name(a)[0]);
        },
        _ => {},
    }
}


/// The names of `k` consecutive calls on one generator, which hand out the
/// counter values `c`, `c + 1`, ..., `c + k - 1` (each call's kind given by
/// `kinds`), are pairwise distinct.
pub proof fn lemma_generated_run_distinct(kinds: Seq<NameKind>, c: nat)
    ensures
        forall|i: int, j: int|
            0 <= i < j < kinds.len() ==> generated_name(#[trigger] kinds[i], (c + i) as nat) != generated_name(
                #[trigger] kinds[j],
                (c + j) as nat,
            ),
{
    assert forall|i: int, j: int| 0 <= i < j < kinds.len() implies generated_name(
        #[trigger] kinds[i],
        (c + i) as nat,
    ) != generated_name(#[trigger] kinds[j], (c + j) as nat) by {
        lemma_generated_names_distinct(kinds[i], (c + i) as nat, kinds[j], (c + j) as nat);
    }
}

} // verus!
