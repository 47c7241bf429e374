//! Exact cosine-similarity scoring over fixed-point embeddings.
//!
//! An embedding is a vector of integers in `[-MAX_COORD, MAX_COORD]`, the
//! fixed-point image of a unit-range coordinate, with at most `MAX_DIM`
//! coordinates. A similarity score keeps the three dot products that define
//! the cosine `num / sqrt(qq * cc)` exactly, so scores compare without any
//! rounding: the cosine is `0` whenever either norm is zero, and it is never
//! an undefined value.

use vstd::prelude::*;

verus! {

/// Largest embedding dimensionality the index accepts.
pub const MAX_DIM: usize = 512;

/// Bound on the absolute value of one fixed-point coordinate.
pub const MAX_COORD: i64 = 1024;

/// Bound on the absolute value of one coordinate product.
pub const MAX_COORD_SQ: i64 = 1024 * 1024;

/// Bound on the absolute value of a dot product of two valid embeddings.
pub const MAX_DOT: i64 = 512 * 1024 * 1024;

/// A fixed-point embedding the index can score: bounded length, bounded
/// coordinates.
pub open spec fn valid_embedding(s: Seq<i64>) -> bool {
    s.len() <= MAX_DIM && forall|i: int|
        0 <= i < s.len() ==> -MAX_COORD <= #[trigger] s[i] <= MAX_COORD
}

/// Runtime check of `valid_embedding`.
pub fn embedding_in_range(s: &Vec<i64>) -> (r: bool)
    ensures
        r == valid_embedding(s@),
{
    if s.len() > MAX_DIM {
        return false;
    }
    let mut i: usize = 0;
    while i < s.len()
        invariant
            i <= s@.len() <= MAX_DIM,
            forall|t: int| 0 <= t < i ==> -MAX_COORD <= #[trigger] s@[t] <= MAX_COORD,
        decreases s@.len() - i,
    {
        let v = s[i];
        if v < -MAX_COORD || v > MAX_COORD {
            return false;
        }
        i = i + 1;
    }
    true
}

/// Dot product over the common prefix of two vectors.
pub open spec fn dot(a: Seq<i64>, b: Seq<i64>) -> int
    decreases a.len(),
{
    if a.len() == 0 || b.len() == 0 {
        0
    } else {
        a[0] * b[0] + dot(a.drop_first(), b.drop_first())
    }
}

proof fn lemma_dot_push(u: Seq<i64>, v: Seq<i64>, x: i64, y: i64)
    requires
        u.len() == v.len(),
    ensures
        dot(u.push(x), v.push(y)) == dot(u, v) + x * y,
    decreases u.len(),
{
    if u.len() == 0 {
        assert(u.push(x).drop_first() =~= Seq::<i64>::empty());
        assert(v.push(y).drop_first() =~= Seq::<i64>::empty());
        assert(dot(Seq::<i64>::empty(), Seq::<i64>::empty()) == 0);
        assert(u.push(x)[0] == x);
        assert(v.push(y)[0] == y);
    } else {
        assert(u.push(x).drop_first() =~= u.drop_first().push(x));
        assert(v.push(y).drop_first() =~= v.drop_first().push(y));
        lemma_dot_push(u.drop_first(), v.drop_first(), x, y);
    }
}

proof fn lemma_dot_take_full(a: Seq<i64>, b: Seq<i64>, m: int)
    requires
        m == vstd::math::min(a.len() as int, b.len() as int),
    ensures
        dot(a.take(m), b.take(m)) == dot(a, b),
    decreases m,
{
    if m == 0 {
        assert(a.take(0) =~= Seq::<i64>::empty());
    } else {
        assert(a.take(m).drop_first() =~= a.drop_first().take(m - 1));
        assert(b.take(m).drop_first() =~= b.drop_first().take(m - 1));
        lemma_dot_take_full(a.drop_first(), b.drop_first(), m - 1);
        assert(a.take(m)[0] == a[0]);
        assert(b.take(m)[0] == b[0]);
    }
}

/// A dot product of a vector with itself is a sum of squares.
pub proof fn lemma_dot_self_nonneg(a: Seq<i64>)
    ensures
        dot(a, a) >= 0,
    decreases a.len(),
{
    if a.len() > 0 {
        assert(a[0] * a[0] >= 0) by (nonlinear_arith);
        lemma_dot_self_nonneg(a.drop_first());
    }
}

/// The dot product is symmetric.
pub proof fn lemma_dot_comm(a: Seq<i64>, b: Seq<i64>)
    ensures
        dot(a, b) == dot(b, a),
    decreases a.len(),
{
    if a.len() > 0 && b.len() > 0 {
        lemma_dot_comm(a.drop_first(), b.drop_first());
    }
}

/// A vector of zero norm is orthogonal to everything.
pub proof fn lemma_dot_zero_self(a: Seq<i64>, b: Seq<i64>)
    requires
        dot(a, a) == 0,
    ensures
        dot(a, b) == 0,
    decreases a.len(),
{
    if a.len() > 0 && b.len() > 0 {
        lemma_dot_self_nonneg(a.drop_first());
        assert(a[0] * a[0] >= 0) by (nonlinear_arith);
        let x = a[0];
        assert(x == 0) by (nonlinear_arith)
            requires
                x * x == 0,
        ;
        lemma_dot_zero_self(a.drop_first(), b.drop_first());
    }
}

/// Computes the dot product over the common prefix.
pub fn dot_product(a: &Vec<i64>, b: &Vec<i64>) -> (r: i64)
    requires
        valid_embedding(a@),
        valid_embedding(b@),
    ensures
        r as int == dot(a@, b@),
        -MAX_DOT <= r <= MAX_DOT,
{
    let m = if a.len() < b.len() {
        a.len()
    } else {
        b.len()
    };
    let mut acc: i64 = 0;
    let mut i: usize = 0;
    while i < m
        invariant
            i <= m <= MAX_DIM,
            m <= a@.len(),
            m <= b@.len(),
            valid_embedding(a@),
            valid_embedding(b@),
            acc as int == dot(a@.take(i as int), b@.take(i as int)),
            -((i as int) * (MAX_COORD_SQ as int)) <= acc as int <= (i as int) * (MAX_COORD_SQ
                as int),
        decreases m - i,
    {
        let x = a[i];
        let y = b[i];
        proof {
            assert(-MAX_COORD <= x <= MAX_COORD);
            assert(-MAX_COORD <= y <= MAX_COORD);
            assert(-(MAX_COORD_SQ as int) <= x * y <= MAX_COORD_SQ as int) by (nonlinear_arith)
                requires
                    -1024 <= x <= 1024,
                    -1024 <= y <= 1024,
            ;
            let gi = i as int;
            assert((gi + 1) * 1048576 == gi * 1048576 + 1048576) by (nonlinear_arith);
            assert((gi + 1) * 1048576 <= 536870912) by (nonlinear_arith)
                requires
                    gi + 1 <= 512,
            ;
            assert((gi + 1) * (MAX_COORD_SQ as int) == (gi + 1) * 1048576);
            assert(gi * (MAX_COORD_SQ as int) == gi * 1048576);
            assert(acc as int + x * y <= (gi + 1) * 1048576);
            assert(-((gi + 1) * 1048576) <= acc as int + x * y);
            lemma_dot_push(a@.take(gi), b@.take(gi), a@[gi], b@[gi]);
            assert(a@.take(gi).push(a@[gi]) =~= a@.take(gi + 1));
            assert(b@.take(gi).push(b@[gi]) =~= b@.take(gi + 1));
        }
        acc = acc + x * y;
        i = i + 1;
    }
    proof {
        lemma_dot_take_full(a@, b@, m as int);
        let gm = m as int;
        assert(gm * 1048576 <= 536870912 && 0 <= gm * 1048576) by (nonlinear_arith)
            requires
                0 <= gm <= 512,
        ;
        assert(gm * (MAX_COORD_SQ as int) == gm * 1048576);
        assert(-(MAX_DOT as int) <= -(gm * 1048576));
    }
    acc
}

/// The exact value of a similarity score: the cosine is
/// `num / sqrt(qq * cc)`, or `0` when either norm is zero.
pub struct ScoreModel {
    pub num: int,
    pub qq: int,
    pub cc: int,
}

/// A similarity score, kept exactly: `num` is the dot product of the two
/// vectors, `qq` and `cc` are each vector's dot product with itself.
#[derive(Clone, Copy, PartialEq, Eq, Structural, Debug)]
pub struct Score {
    pub num: i64,
    pub qq: i64,
    pub cc: i64,
}

impl View for Score {
    type V = ScoreModel;

    open spec fn view(&self) -> ScoreModel {
        ScoreModel { num: self.num as int, qq: self.qq as int, cc: self.cc as int }
    }
}

/// The score of a query and a stored embedding.
pub open spec fn score_of(q: Seq<i64>, e: Seq<i64>) -> ScoreModel {
    ScoreModel { num: dot(q, e), qq: dot(q, q), cc: dot(e, e) }
}

/// Well-formed score: norms are non-negative and every part is bounded by
/// the largest possible dot product.
pub open spec fn score_wf(s: ScoreModel) -> bool {
    0 <= s.qq <= MAX_DOT && 0 <= s.cc <= MAX_DOT && -MAX_DOT <= s.num <= MAX_DOT
}

/// Sign of the score's value: `0` when either norm or the dot product is
/// zero.
pub open spec fn score_sign(s: ScoreModel) -> int {
    if s.qq == 0 || s.cc == 0 || s.num == 0 {
        0
    } else if s.num > 0 {
        1
    } else {
        -1
    }
}

/// The score's value is zero.
pub open spec fn score_is_zero(s: ScoreModel) -> bool {
    score_sign(s) == 0
}

/// The score's value is exactly one.
pub open spec fn score_is_one(s: ScoreModel) -> bool {
    score_sign(s) == 1 && s.num * s.num == s.qq * s.cc
}

/// Value comparison `a >= b` of two scores, decided exactly by cross
/// multiplication of the squared values.
pub open spec fn score_ge(a: ScoreModel, b: ScoreModel) -> bool {
    let sa = score_sign(a);
    let sb = score_sign(b);
    if sa != sb {
        sa > sb
    } else if sa == 0 {
        true
    } else if sa > 0 {
        a.num * a.num * b.qq * b.cc >= b.num * b.num * a.qq * a.cc
    } else {
        a.num * a.num * b.qq * b.cc <= b.num * b.num * a.qq * a.cc
    }
}

/// Strict value comparison.
pub open spec fn score_gt(a: ScoreModel, b: ScoreModel) -> bool {
    score_ge(a, b) && !score_ge(b, a)
}

/// Equal score values.
pub open spec fn score_eqv(a: ScoreModel, b: ScoreModel) -> bool {
    score_ge(a, b) && score_ge(b, a)
}

/// The comparison is total.
pub proof fn lemma_score_ge_total(a: ScoreModel, b: ScoreModel)
    ensures
        score_ge(a, b) || score_ge(b, a),
{
}

/// The comparison is transitive.
pub proof fn lemma_score_ge_trans(a: ScoreModel, b: ScoreModel, c: ScoreModel)
    requires
        score_wf(a),
        score_wf(b),
        score_wf(c),
        score_ge(a, b),
        score_ge(b, c),
    ensures
        score_ge(a, c),
{
    let sa = score_sign(a);
    let sb = score_sign(b);
    let sc = score_sign(c);
    if sa == sb && sb == sc && sa != 0 {
        let qa = a.num * a.num;
        let qb = b.num * b.num;
        let qc = c.num * c.num;
        let da = a.qq * a.cc;
        let db = b.qq * b.cc;
        let dc = c.qq * c.cc;
        assert(da > 0) by (nonlinear_arith)
            requires
                da == a.qq * a.cc,
                a.qq > 0,
                a.cc > 0,
        ;
        assert(db > 0) by (nonlinear_arith)
            requires
                db == b.qq * b.cc,
                b.qq > 0,
                b.cc > 0,
        ;
        assert(dc > 0) by (nonlinear_arith)
            requires
                dc == c.qq * c.cc,
                c.qq > 0,
                c.cc > 0,
        ;
        assert(qa >= 0) by (nonlinear_arith)
            requires
                qa == a.num * a.num,
        ;
        assert(qb >= 0) by (nonlinear_arith)
            requires
                qb == b.num * b.num,
        ;
        assert(qc >= 0) by (nonlinear_arith)
            requires
                qc == c.num * c.num,
        ;
        if sa > 0 {
            assert(qa * db >= qb * da) by (nonlinear_arith)
                requires
                    qa == a.num * a.num,
                    qb == b.num * b.num,
                    da == a.qq * a.cc,
                    db == b.qq * b.cc,
                    a.num * a.num * b.qq * b.cc >= b.num * b.num * a.qq * a.cc,
            ;
            assert(qb * dc >= qc * db) by (nonlinear_arith)
                requires
                    qb == b.num * b.num,
                    qc == c.num * c.num,
                    db == b.qq * b.cc,
                    dc == c.qq * c.cc,
                    b.num * b.num * c.qq * c.cc >= c.num * c.num * b.qq * b.cc,
            ;
            assert(qa * dc >= qc * da) by (nonlinear_arith)
                requires
                    qa * db >= qb * da,
                    qb * dc >= qc * db,
                    qa >= 0,
                    qb >= 0,
                    qc >= 0,
                    da > 0,
                    db > 0,
                    dc > 0,
            ;
            assert(a.num * a.num * c.qq * c.cc >= c.num * c.num * a.qq * a.cc) by (
            nonlinear_arith)
                requires
                    qa * dc >= qc * da,
                    qa == a.num * a.num,
                    qc == c.num * c.num,
                    da == a.qq * a.cc,
                    dc == c.qq * c.cc,
            ;
        } else {
            assert(qa * db <= qb * da) by (nonlinear_arith)
                requires
                    qa == a.num * a.num,
                    qb == b.num * b.num,
                    da == a.qq * a.cc,
                    db == b.qq * b.cc,
                    a.num * a.num * b.qq * b.cc <= b.num * b.num * a.qq * a.cc,
            ;
            assert(qb * dc <= qc * db) by (nonlinear_arith)
                requires
                    qb == b.num * b.num,
                    qc == c.num * c.num,
                    db == b.qq * b.cc,
                    dc == c.qq * c.cc,
                    b.num * b.num * c.qq * c.cc <= c.num * c.num * b.qq * b.cc,
            ;
            assert(qa * dc <= qc * da) by (nonlinear_arith)
                requires
                    qa * db <= qb * da,
                    qb * dc <= qc * db,
                    qa >= 0,
                    qb >= 0,
                    qc >= 0,
                    da > 0,
                    db > 0,
                    dc > 0,
            ;
            assert(a.num * a.num * c.qq * c.cc <= c.num * c.num * a.qq * a.cc) by (
            nonlinear_arith)
                requires
                    qa * dc <= qc * da,
                    qa == a.num * a.num,
                    qc == c.num * c.num,
                    da == a.qq * a.cc,
                    dc == c.qq * c.cc,
            ;
        }
    }
}

/// A strictly better score stays strictly better than anything the weaker
/// score matches or beats.
pub proof fn lemma_score_gt_ge_trans(a: ScoreModel, b: ScoreModel, c: ScoreModel)
    requires
        score_wf(a),
        score_wf(b),
        score_wf(c),
        score_gt(a, b),
        score_ge(b, c),
    ensures
        score_gt(a, c),
{
    lemma_score_ge_trans(a, b, c);
    if score_ge(c, a) {
        lemma_score_ge_trans(b, c, a);
        assert(false);
    }
}

/// Exact comparison of two scores.
pub fn score_ge_exec(a: &Score, b: &Score) -> (r: bool)
    requires
        score_wf(a@),
        score_wf(b@),
    ensures
        r == score_ge(a@, b@),
{
    let sa: i64 = if a.qq == 0 || a.cc == 0 || a.num == 0 {
        0
    } else if a.num > 0 {
        1
    } else {
        -1
    };
    let sb: i64 = if b.qq == 0 || b.cc == 0 || b.num == 0 {
        0
    } else if b.num > 0 {
        1
    } else {
        -1
    };
    if sa != sb {
        sa > sb
    } else if sa == 0 {
        true
    } else {
        proof {
            lemma_cross_products_fit(a@, b@);
        }
        let pa: i128 = (a.num as i128) * (a.num as i128) * (b.qq as i128) * (b.cc as i128);
        let pb: i128 = (b.num as i128) * (b.num as i128) * (a.qq as i128) * (a.cc as i128);
        if sa > 0 {
            pa >= pb
        } else {
            pa <= pb
        }
    }
}

proof fn lemma_cross_products_fit(a: ScoreModel, b: ScoreModel)
    requires
        score_wf(a),
        score_wf(b),
    ensures
        -0x1000000000000000000000000000000 <= a.num * a.num <= 0x1000000000000000000000000000000,
        -0x1000000000000000000000000000000 <= a.num * a.num * b.qq
            <= 0x1000000000000000000000000000000,
        -0x1000000000000000000000000000000 <= a.num * a.num * b.qq * b.cc
            <= 0x1000000000000000000000000000000,
        -0x1000000000000000000000000000000 <= b.num * b.num <= 0x1000000000000000000000000000000,
        -0x1000000000000000000000000000000 <= b.num * b.num * a.qq
            <= 0x1000000000000000000000000000000,
        -0x1000000000000000000000000000000 <= b.num * b.num * a.qq * a.cc
            <= 0x1000000000000000000000000000000,
{
    let k = MAX_DOT as int;
    assert(k == 536870912);
    assert(0 <= a.num * a.num <= k * k) by (nonlinear_arith)
        requires
            -k <= a.num <= k,
    ;
    assert(0 <= a.num * a.num * b.qq <= k * k * k) by (nonlinear_arith)
        requires
            0 <= a.num * a.num <= k * k,
            0 <= b.qq <= k,
            k >= 0,
    ;
    assert(0 <= a.num * a.num * b.qq * b.cc <= k * k * k * k) by (nonlinear_arith)
        requires
            0 <= a.num * a.num * b.qq <= k * k * k,
            0 <= b.cc <= k,
            k >= 0,
    ;
    assert(0 <= b.num * b.num <= k * k) by (nonlinear_arith)
        requires
            -k <= b.num <= k,
    ;
    assert(0 <= b.num * b.num * a.qq <= k * k * k) by (nonlinear_arith)
        requires
            0 <= b.num * b.num <= k * k,
            0 <= a.qq <= k,
            k >= 0,
    ;
    assert(0 <= b.num * b.num * a.qq * a.cc <= k * k * k * k) by (nonlinear_arith)
        requires
            0 <= b.num * b.num * a.qq <= k * k * k,
            0 <= a.cc <= k,
            k >= 0,
    ;
    assert(k * k * k * k < 0x1000000000000000000000000000000) by (nonlinear_arith)
        requires
            k == 536870912,
    ;
}

/// The exact cosine score of two fixed-point vectors.
pub fn cosine_similarity(a: &Vec<i64>, b: &Vec<i64>) -> (r: Score)
    requires
        valid_embedding(a@),
        valid_embedding(b@),
    ensures
        r@ == score_of(a@, b@),
        score_wf(r@),
{
    let num = dot_product(a, b);
    let qq = dot_product(a, a);
    let cc = dot_product(b, b);
    proof {
        lemma_dot_self_nonneg(a@);
        lemma_dot_self_nonneg(b@);
    }
    Score { num, qq, cc }
}

/// The cosine of a vector with itself is exactly one whenever its norm is
/// non-zero.
pub proof fn lemma_cosine_self_is_one(a: Seq<i64>)
    requires
        dot(a, a) != 0,
    ensures
        score_is_one(score_of(a, a)),
{
    lemma_dot_self_nonneg(a);
}

/// The cosine is zero whenever either norm is zero; the dot product itself
/// is zero there too.
pub proof fn lemma_cosine_zero_norm(a: Seq<i64>, b: Seq<i64>)
    requires
        dot(a, a) == 0 || dot(b, b) == 0,
    ensures
        score_is_zero(score_of(a, b)),
        score_of(a, b).num == 0,
{
    if dot(a, a) == 0 {
        lemma_dot_zero_self(a, b);
    } else {
        lemma_dot_zero_self(b, a);
        lemma_dot_comm(a, b);
    }
}

} // verus!
