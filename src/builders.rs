//! The bookkeeping builders that bind the count, result, prove and verify passes together.
use vstd::prelude::*;
use crate::scalar::{fadd, fmul, Scalar};

verus! {

/// Why a proof was rejected.
#[derive(Clone, Copy, PartialEq, Eq, Structural, Debug)]
pub enum ProofError {
    /// A claimed evaluation that the check needs is absent.
    VerificationError,
}

/// Resources that one node declares in the count pass.
pub struct CountBuilder {
    pub anchored_mles: usize,
    pub result_columns: usize,
    pub intermediate_mles: usize,
    pub subpolynomials: usize,
    pub degree: usize,
    pub post_result_challenges: usize,
}

impl CountBuilder {
    pub fn new() -> (r: CountBuilder)
        ensures
            r.anchored_mles == 0,
            r.result_columns == 0,
            r.intermediate_mles == 0,
            r.subpolynomials == 0,
            r.degree == 0,
            r.post_result_challenges == 0,
    {
        CountBuilder {
            anchored_mles: 0,
            result_columns: 0,
            intermediate_mles: 0,
            subpolynomials: 0,
            degree: 0,
            post_result_challenges: 0,
        }
    }

    pub fn count_anchored_mles(&mut self, n: usize)
        requires
            old(self).anchored_mles + n <= usize::MAX,
        ensures
            *final(self) == (CountBuilder { anchored_mles: (old(self).anchored_mles + n) as usize, ..*old(self) }),
    {
        self.anchored_mles = self.anchored_mles + n;
    }

    pub fn count_result_columns(&mut self, n: usize)
        requires
            old(self).result_columns + n <= usize::MAX,
        ensures
            *final(self) == (CountBuilder { result_columns: (old(self).result_columns + n) as usize, ..*old(self) }),
    {
        self.result_columns = self.result_columns + n;
    }

    pub fn count_intermediate_mles(&mut self, n: usize)
        requires
            old(self).intermediate_mles + n <= usize::MAX,
        ensures
            *final(self) == (CountBuilder { intermediate_mles: (old(self).intermediate_mles + n) as usize, ..*old(self) }),
    {
        self.intermediate_mles = self.intermediate_mles + n;
    }

    pub fn count_subpolynomials(&mut self, n: usize)
        requires
            old(self).subpolynomials + n <= usize::MAX,
        ensures
            *final(self) == (CountBuilder { subpolynomials: (old(self).subpolynomials + n) as usize, ..*old(self) }),
    {
        self.subpolynomials = self.subpolynomials + n;
    }

    /// Raises the maximum degree to at least `d`.
    pub fn count_degree(&mut self, d: usize)
        ensures
            *final(self) == (CountBuilder {
                degree: if d > old(self).degree { d } else { old(self).degree },
                ..*old(self)
            }),
    {
        if d > self.degree {
            self.degree = d;
        }
    }

    pub fn count_post_result_challenges(&mut self, n: usize)
        requires
            old(self).post_result_challenges + n <= usize::MAX,
        ensures
            *final(self) == (CountBuilder { post_result_challenges: (old(self).post_result_challenges + n) as usize, ..*old(self) }),
    {
        self.post_result_challenges = self.post_result_challenges + n;
    }
}

/// The rows that survive selection: a range `[start, end)` or an explicit list.
pub enum Indexes {
    Sparse(Vec<u64>),
    Dense(u64, u64),
}

/// Collects the plaintext answer of the result pass.
pub struct ResultBuilder {
    pub table_length: usize,
    pub result_columns: Vec<Vec<Scalar>>,
    pub result_indexes: Option<Indexes>,
    pub post_result_challenges: usize,
}

impl ResultBuilder {
    pub fn new(table_length: usize) -> (r: ResultBuilder)
        ensures
            r.table_length == table_length,
            r.result_columns@.len() == 0,
            r.result_indexes.is_none(),
            r.post_result_challenges == 0,
    {
        ResultBuilder {
            table_length,
            result_columns: Vec::new(),
            result_indexes: None,
            post_result_challenges: 0,
        }
    }

    pub fn table_length(&self) -> (r: usize)
        ensures
            r == self.table_length,
    {
        self.table_length
    }

    /// Fixes the selected rows; they may be set once only.
    pub fn set_result_indexes(&mut self, indexes: Indexes)
        requires
            old(self).result_indexes.is_none(),
        ensures
            final(self).result_indexes == Some(indexes),
            final(self).result_columns == old(self).result_columns,
            final(self).table_length == old(self).table_length,
            final(self).post_result_challenges == old(self).post_result_challenges,
    {
        self.result_indexes = Some(indexes);
    }

    pub fn produce_result_column(&mut self, column: Vec<Scalar>)
        ensures
            final(self).result_columns@ == old(self).result_columns@.push(column),
            final(self).result_indexes == old(self).result_indexes,
            final(self).table_length == old(self).table_length,
            final(self).post_result_challenges == old(self).post_result_challenges,
    {
        self.result_columns.push(column);
    }

    pub fn request_post_result_challenges(&mut self, n: usize)
        requires
            old(self).post_result_challenges + n <= usize::MAX,
        ensures
            final(self).post_result_challenges == old(self).post_result_challenges + n,
            final(self).result_columns == old(self).result_columns,
            final(self).result_indexes == old(self).result_indexes,
            final(self).table_length == old(self).table_length,
    {
        self.post_result_challenges = self.post_result_challenges + n;
    }
}

/// How a subpolynomial must vanish: summed over all rows, or at every row.
#[derive(Clone, Copy, PartialEq, Eq, Structural, Debug)]
pub enum SubpolynomialType {
    ZeroSum,
    Identity,
}

/// A coefficient times the row-wise product of its multiplicands.
pub struct Term {
    pub coefficient: Scalar,
    pub multiplicands: Vec<Vec<Scalar>>,
}

/// A proof identity: a kind and a weighted sum of products of row vectors.
pub struct Subpolynomial {
    pub kind: SubpolynomialType,
    pub terms: Vec<Term>,
}

/// The product of the multiplicands at row `i`.
pub open spec fn product_at(ms: Seq<Vec<Scalar>>, i: int) -> int
    decreases ms.len(),
{
    if ms.len() == 0 {
        1
    } else {
        fmul(ms[0]@[i].val(), product_at(ms.drop_first(), i))
    }
}

/// The value of the weighted terms at row `i`.
pub open spec fn terms_at(ts: Seq<Term>, i: int) -> int
    decreases ts.len(),
{
    if ts.len() == 0 {
        0
    } else {
        fadd(fmul(ts[0].coefficient.val(), product_at(ts[0].multiplicands@, i)), terms_at(ts.drop_first(), i))
    }
}

/// The sum of `f(i)` over the rows `0 .. n`, in the field.
pub open spec fn row_sum(f: spec_fn(int) -> int, n: int) -> int
    decreases n,
{
    if n <= 0 {
        0
    } else {
        fadd(row_sum(f, n - 1), f(n - 1))
    }
}

impl Subpolynomial {
    pub open spec fn at(&self, i: int) -> int {
        terms_at(self.terms@, i)
    }

    /// The identity holds on a table of `n` rows.
    pub open spec fn holds(&self, n: int) -> bool {
        match self.kind {
            SubpolynomialType::ZeroSum => row_sum(|i: int| self.at(i), n) == 0,
            SubpolynomialType::Identity => forall|i: int| 0 <= i < n ==> self.at(i) == 0,
        }
    }
}

/// Collects the witnesses and identities of the prove pass.
pub struct ProofBuilder {
    pub table_length: usize,
    pub intermediate_mles: Vec<Vec<Scalar>>,
    pub subpolynomials: Vec<Subpolynomial>,
    pub post_result_challenges: Vec<Scalar>,
    pub next_challenge: usize,
}

impl ProofBuilder {
    pub open spec fn wf(&self) -> bool {
        &&& self.next_challenge <= self.post_result_challenges@.len()
        &&& forall|i: int| 0 <= i < self.post_result_challenges@.len()
            ==> (#[trigger] self.post_result_challenges@[i]).wf()
    }

    /// The challenges that remain to be drawn, in order.
    pub open spec fn remaining_challenges(&self) -> Seq<Scalar> {
        self.post_result_challenges@.subrange(self.next_challenge as int, self.post_result_challenges@.len() as int)
    }

    pub fn new(table_length: usize, post_result_challenges: Vec<Scalar>) -> (r: ProofBuilder)
        requires
            forall|i: int| 0 <= i < post_result_challenges@.len() ==> (#[trigger] post_result_challenges@[i]).wf(),
        ensures
            r.wf(),
            r.table_length == table_length,
            r.intermediate_mles@.len() == 0,
            r.subpolynomials@.len() == 0,
            r.post_result_challenges == post_result_challenges,
            r.next_challenge == 0,
    {
        ProofBuilder {
            table_length,
            intermediate_mles: Vec::new(),
            subpolynomials: Vec::new(),
            post_result_challenges,
            next_challenge: 0,
        }
    }

    pub fn table_length(&self) -> (r: usize)
        ensures
            r == self.table_length,
    {
        self.table_length
    }

    /// Appends a witness vector; the order of the calls is the order the verifier reads them in.
    pub fn produce_intermediate_mle(&mut self, mle: Vec<Scalar>)
        ensures
            final(self).intermediate_mles@ == old(self).intermediate_mles@.push(mle),
            final(self).subpolynomials == old(self).subpolynomials,
            final(self).post_result_challenges == old(self).post_result_challenges,
            final(self).next_challenge == old(self).next_challenge,
            final(self).table_length == old(self).table_length,
    {
        self.intermediate_mles.push(mle);
    }

    pub fn produce_sumcheck_subpolynomial(&mut self, kind: SubpolynomialType, terms: Vec<Term>)
        ensures
            final(self).subpolynomials@ == old(self).subpolynomials@.push(Subpolynomial { kind, terms }),
            final(self).intermediate_mles == old(self).intermediate_mles,
            final(self).post_result_challenges == old(self).post_result_challenges,
            final(self).next_challenge == old(self).next_challenge,
            final(self).table_length == old(self).table_length,
    {
        self.subpolynomials.push(Subpolynomial { kind, terms });
    }

    /// Draws the next challenge.
    pub fn consume_post_result_challenge(&mut self) -> (r: Scalar)
        requires
            old(self).wf(),
            old(self).next_challenge < old(self).post_result_challenges@.len(),
        ensures
            final(self).wf(),
            r.wf(),
            r == old(self).post_result_challenges@[old(self).next_challenge as int],
            final(self).next_challenge == old(self).next_challenge + 1,
            final(self).post_result_challenges == old(self).post_result_challenges,
            final(self).intermediate_mles == old(self).intermediate_mles,
            final(self).subpolynomials == old(self).subpolynomials,
            final(self).table_length == old(self).table_length,
    {
        let c = self.post_result_challenges[self.next_challenge];
        // the length bounds the cursor, so the increment below cannot overflow
        let _len: usize = self.post_result_challenges.len();
        self.next_challenge = self.next_challenge + 1;
        c
    }
}

/// Reads one claimed evaluation after another, in the order the prover produced them.
pub struct EvaluationQueue {
    pub values: Vec<Scalar>,
    pub next: usize,
}

impl EvaluationQueue {
    pub open spec fn wf(&self) -> bool {
        &&& self.next <= self.values@.len()
        &&& forall|i: int| 0 <= i < self.values@.len() ==> (#[trigger] self.values@[i]).wf()
    }

    pub open spec fn remaining(&self) -> int {
        self.values@.len() - self.next
    }

    pub fn new(values: Vec<Scalar>) -> (r: EvaluationQueue)
        requires
            forall|i: int| 0 <= i < values@.len() ==> (#[trigger] values@[i]).wf(),
        ensures
            r.wf(),
            r.values == values,
            r.next == 0,
    {
        EvaluationQueue { values, next: 0 }
    }

    pub fn consume(&mut self) -> (r: Scalar)
        requires
            old(self).wf(),
            old(self).remaining() > 0,
        ensures
            final(self).wf(),
            r.wf(),
            r == old(self).values@[old(self).next as int],
            final(self).values == old(self).values,
            final(self).next == old(self).next + 1,
    {
        let v = self.values[self.next];
        // the length bounds the cursor, so the increment below cannot overflow
        let _len: usize = self.values.len();
        self.next = self.next + 1;
        v
    }
}

/// Mirrors the prove pass on claimed evaluations at one random point.
pub struct VerificationBuilder {
    /// The evaluation of the all-ones vector.
    pub one_evaluation: Scalar,
    /// The evaluation of the random row selector.
    pub random_evaluation: Scalar,
    pub result_indexes_evaluation: Option<Scalar>,
    pub column_evaluations: EvaluationQueue,
    pub result_evaluations: EvaluationQueue,
    pub intermediate_evaluations: EvaluationQueue,
    pub post_result_challenges: EvaluationQueue,
    pub subpolynomial_evaluations: Vec<Scalar>,
}

impl VerificationBuilder {
    pub open spec fn wf(&self) -> bool {
        &&& self.one_evaluation.wf()
        &&& self.random_evaluation.wf()
        &&& self.column_evaluations.wf()
        &&& self.result_evaluations.wf()
        &&& self.intermediate_evaluations.wf()
        &&& self.post_result_challenges.wf()
    }

    pub open spec fn same_context(&self, o: &VerificationBuilder) -> bool {
        &&& self.one_evaluation == o.one_evaluation
        &&& self.random_evaluation == o.random_evaluation
        &&& self.result_indexes_evaluation == o.result_indexes_evaluation
    }

    pub fn consume_column_evaluation(&mut self) -> (r: Scalar)
        requires
            old(self).wf(),
            old(self).column_evaluations.remaining() > 0,
        ensures
            final(self).wf(),
            final(self).same_context(old(self)),
            r == old(self).column_evaluations.values@[old(self).column_evaluations.next as int],
            final(self).column_evaluations.values == old(self).column_evaluations.values,
            final(self).column_evaluations.next == old(self).column_evaluations.next + 1,
            final(self).result_evaluations == old(self).result_evaluations,
            final(self).intermediate_evaluations == old(self).intermediate_evaluations,
            final(self).post_result_challenges == old(self).post_result_challenges,
            final(self).subpolynomial_evaluations == old(self).subpolynomial_evaluations,
    {
        self.column_evaluations.consume()
    }

    pub fn consume_result_mle(&mut self) -> (r: Scalar)
        requires
            old(self).wf(),
            old(self).result_evaluations.remaining() > 0,
        ensures
            final(self).wf(),
            final(self).same_context(old(self)),
            r == old(self).result_evaluations.values@[old(self).result_evaluations.next as int],
            final(self).result_evaluations.values == old(self).result_evaluations.values,
            final(self).result_evaluations.next == old(self).result_evaluations.next + 1,
            final(self).column_evaluations == old(self).column_evaluations,
            final(self).intermediate_evaluations == old(self).intermediate_evaluations,
            final(self).post_result_challenges == old(self).post_result_challenges,
            final(self).subpolynomial_evaluations == old(self).subpolynomial_evaluations,
    {
        self.result_evaluations.consume()
    }

    pub fn consume_intermediate_mle(&mut self) -> (r: Scalar)
        requires
            old(self).wf(),
            old(self).intermediate_evaluations.remaining() > 0,
        ensures
            final(self).wf(),
            final(self).same_context(old(self)),
            r == old(self).intermediate_evaluations.values@[old(self).intermediate_evaluations.next as int],
            final(self).intermediate_evaluations.values == old(self).intermediate_evaluations.values,
            final(self).intermediate_evaluations.next == old(self).intermediate_evaluations.next + 1,
            final(self).column_evaluations == old(self).column_evaluations,
            final(self).result_evaluations == old(self).result_evaluations,
            final(self).post_result_challenges == old(self).post_result_challenges,
            final(self).subpolynomial_evaluations == old(self).subpolynomial_evaluations,
    {
        self.intermediate_evaluations.consume()
    }

    pub fn consume_post_result_challenge(&mut self) -> (r: Scalar)
        requires
            old(self).wf(),
            old(self).post_result_challenges.remaining() > 0,
        ensures
            final(self).wf(),
            final(self).same_context(old(self)),
            r == old(self).post_result_challenges.values@[old(self).post_result_challenges.next as int],
            final(self).post_result_challenges.values == old(self).post_result_challenges.values,
            final(self).post_result_challenges.next == old(self).post_result_challenges.next + 1,
            final(self).column_evaluations == old(self).column_evaluations,
            final(self).result_evaluations == old(self).result_evaluations,
            final(self).intermediate_evaluations == old(self).intermediate_evaluations,
            final(self).subpolynomial_evaluations == old(self).subpolynomial_evaluations,
    {
        self.post_result_challenges.consume()
    }

    /// Hands the value of one identity at the random point to the outer check.
    pub fn produce_sumcheck_subpolynomial_evaluation(&mut self, eval: Scalar)
        requires
            old(self).wf(),
        ensures
            final(self).wf(),
            final(self).same_context(old(self)),
            final(self).subpolynomial_evaluations@ == old(self).subpolynomial_evaluations@.push(eval),
            final(self).column_evaluations == old(self).column_evaluations,
            final(self).result_evaluations == old(self).result_evaluations,
            final(self).intermediate_evaluations == old(self).intermediate_evaluations,
            final(self).post_result_challenges == old(self).post_result_challenges,
    {
        self.subpolynomial_evaluations.push(eval);
    }
}

impl VerificationBuilder {
    /// Reads the next `k` column evaluations.
    pub fn consume_column_evaluations(&mut self, k: usize) -> (r: Vec<Scalar>)
        requires
            old(self).wf(),
            old(self).column_evaluations.remaining() >= k,
        ensures
            final(self).wf(),
            final(self).same_context(old(self)),
            r@ == old(self).column_evaluations.values@.subrange(
                old(self).column_evaluations.next as int,
                old(self).column_evaluations.next + k,
            ),
            final(self).column_evaluations.values == old(self).column_evaluations.values,
            final(self).column_evaluations.next == old(self).column_evaluations.next + k,
            final(self).result_evaluations == old(self).result_evaluations,
            final(self).intermediate_evaluations == old(self).intermediate_evaluations,
            final(self).post_result_challenges == old(self).post_result_challenges,
            final(self).subpolynomial_evaluations == old(self).subpolynomial_evaluations,
    {
        let mut r: Vec<Scalar> = Vec::new();
        let mut j: usize = 0;
        while j < k
            invariant
                j <= k,
                self.wf(),
                self.same_context(old(self)),
                self.column_evaluations.values == old(self).column_evaluations.values,
                self.column_evaluations.next == old(self).column_evaluations.next + j,
                old(self).column_evaluations.remaining() >= k,
                r@ == old(self).column_evaluations.values@.subrange(
                    old(self).column_evaluations.next as int,
                    old(self).column_evaluations.next + j,
                ),
                self.result_evaluations == old(self).result_evaluations,
                self.intermediate_evaluations == old(self).intermediate_evaluations,
                self.post_result_challenges == old(self).post_result_challenges,
                self.subpolynomial_evaluations == old(self).subpolynomial_evaluations,
            decreases k - j,
        {
            let v = self.consume_column_evaluation();
            r.push(v);
            j = j + 1;
            assert(r@ =~= old(self).column_evaluations.values@.subrange(
                old(self).column_evaluations.next as int,
                old(self).column_evaluations.next + j,
            ));
        }
        r
    }

    /// Reads the next `k` result column evaluations.
    pub fn consume_result_mles(&mut self, k: usize) -> (r: Vec<Scalar>)
        requires
            old(self).wf(),
            old(self).result_evaluations.remaining() >= k,
        ensures
            final(self).wf(),
            final(self).same_context(old(self)),
            r@ == old(self).result_evaluations.values@.subrange(
                old(self).result_evaluations.next as int,
                old(self).result_evaluations.next + k,
            ),
            final(self).result_evaluations.values == old(self).result_evaluations.values,
            final(self).result_evaluations.next == old(self).result_evaluations.next + k,
            final(self).column_evaluations == old(self).column_evaluations,
            final(self).intermediate_evaluations == old(self).intermediate_evaluations,
            final(self).post_result_challenges == old(self).post_result_challenges,
            final(self).subpolynomial_evaluations == old(self).subpolynomial_evaluations,
    {
        let mut r: Vec<Scalar> = Vec::new();
        let mut j: usize = 0;
        while j < k
            invariant
                j <= k,
                self.wf(),
                self.same_context(old(self)),
                self.result_evaluations.values == old(self).result_evaluations.values,
                self.result_evaluations.next == old(self).result_evaluations.next + j,
                old(self).result_evaluations.remaining() >= k,
                r@ == old(self).result_evaluations.values@.subrange(
                    old(self).result_evaluations.next as int,
                    old(self).result_evaluations.next + j,
                ),
                self.column_evaluations == old(self).column_evaluations,
                self.intermediate_evaluations == old(self).intermediate_evaluations,
                self.post_result_challenges == old(self).post_result_challenges,
                self.subpolynomial_evaluations == old(self).subpolynomial_evaluations,
            decreases k - j,
        {
            let v = self.consume_result_mle();
            r.push(v);
            j = j + 1;
            assert(r@ =~= old(self).result_evaluations.values@.subrange(
                old(self).result_evaluations.next as int,
                old(self).result_evaluations.next + j,
            ));
        }
        r
    }
}

} // verus!
