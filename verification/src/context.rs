//! Turns ranked search results into a length-bounded prompt context plus a
//! de-duplicated source list.
//!
//! Results are taken in ranked order; each text is truncated to at most
//! `max_words_per_chunk` words; once the running word total would reach or
//! exceed `max_total_words`, no further chunk is included — a chunk is whole
//! or absent, never cut to fit the budget exactly.

use crate::index::{hit_views, HitModel, SearchHit};
use crate::score::{score_wf, Score, ScoreModel};
use crate::strutil::{
    clone_prefix, contains_string, dec_digits, digit_char, join_spaces, join_words, split_words,
    str_views, u64_to_string, words_of,
};
use vstd::prelude::*;

verus! {

/// `r` is the integer square root of `x`.
pub open spec fn is_isqrt(x: int, r: int) -> bool {
    0 <= r && r * r <= x && x < (r + 1) * (r + 1)
}

/// The integer square root, built up from zero.
pub open spec fn spec_isqrt(x: int) -> int
    decreases x,
{
    if x <= 0 {
        0
    } else {
        let r = spec_isqrt(x - 1);
        if (r + 1) * (r + 1) <= x {
            r + 1
        } else {
            r
        }
    }
}

proof fn lemma_spec_isqrt(x: int)
    requires
        x >= 0,
    ensures
        is_isqrt(x, spec_isqrt(x)),
    decreases x,
{
    if x == 0 {
    } else {
        lemma_spec_isqrt(x - 1);
        let r = spec_isqrt(x - 1);
        if (r + 1) * (r + 1) <= x {
            assert((r + 2) * (r + 2) > x) by (nonlinear_arith)
                requires
                    x - 1 < (r + 1) * (r + 1),
                    r >= 0,
            ;
        }
    }
}

proof fn lemma_isqrt_unique(x: int, r1: int, r2: int)
    requires
        is_isqrt(x, r1),
        is_isqrt(x, r2),
    ensures
        r1 == r2,
{
    assert(r1 == r2) by (nonlinear_arith)
        requires
            0 <= r1,
            0 <= r2,
            r1 * r1 <= x,
            x < (r1 + 1) * (r1 + 1),
            r2 * r2 <= x,
            x < (r2 + 1) * (r2 + 1),
    ;
}

fn isqrt_u128(x: u128) -> (r: u128)
    requires
        x < 0x1000000000000000000000,
    ensures
        r as int == spec_isqrt(x as int),
{
    let mut lo: u128 = 0;
    let mut hi: u128 = 0x40000000000;
    proof {
        assert((0x40000000000 as int) * (0x40000000000 as int) == 0x1000000000000000000000) by (
        nonlinear_arith);
    }
    while lo + 1 < hi
        invariant
            lo < hi <= 0x40000000000,
            (lo as int) * (lo as int) <= x as int,
            (x as int) < (hi as int) * (hi as int),
        decreases hi - lo,
    {
        let mid = lo + (hi - lo) / 2;
        proof {
            assert(lo < mid < hi);
            assert((mid as int) * (mid as int) <= 0x1000000000000000000000) by (nonlinear_arith)
                requires
                    0 <= (mid as int) && (mid as int) <= 0x40000000000,
            ;
        }
        let sq = mid * mid;
        if sq <= x {
            lo = mid;
        } else {
            hi = mid;
        }
    }
    proof {
        lemma_spec_isqrt(x as int);
        lemma_isqrt_unique(x as int, lo as int, spec_isqrt(x as int));
    }
    lo
}

/// The score's value in hundredths, rounded to nearest: the square root of
/// the squared cosine scaled to ten-thousandths, signed like the dot
/// product. The root `r` of `q` is rounded up exactly when `q` lies closer
/// to `(r + 1)^2`, that is when `q - r * r > r`.
pub open spec fn score_cents(s: ScoreModel) -> int {
    if s.qq <= 0 || s.cc <= 0 {
        0
    } else {
        let q = (10000 * (s.num * s.num)) / (s.qq * s.cc);
        let root = spec_isqrt(q);
        let mag = if q - root * root > root {
            root + 1
        } else {
            root
        };
        if s.num >= 0 {
            mag
        } else {
            -mag
        }
    }
}

/// Computes the score's value in hundredths.
pub fn score_cents_exec(sc: &Score) -> (r: i64)
    requires
        score_wf(sc@),
    ensures
        r as int == score_cents(sc@),
        -0x40000000001 <= r <= 0x40000000001,
{
    if sc.qq <= 0 || sc.cc <= 0 {
        return 0;
    }
    let absn: u64 = if sc.num >= 0 {
        sc.num as u64
    } else {
        (-sc.num) as u64
    };
    proof {
        assert((absn as int) * (absn as int) == (sc.num as int) * (sc.num as int)
            && (absn as int) * (absn as int) <= 536870912 * 536870912) by (nonlinear_arith)
            requires
                absn as int == (if sc.num as int >= 0 { sc.num as int } else { -(sc.num as int) }),
                -536870912 <= (sc.num as int) && (sc.num as int) <= 536870912,
        ;
    }
    let nn: u64 = absn * absn;
    let scaled: u128 = (nn as u128) * 10000;
    proof {
        assert(0 < (sc.qq as int) * (sc.cc as int) && (sc.qq as int) * (sc.cc as int)
            <= 536870912 * 536870912) by (nonlinear_arith)
            requires
                0 < (sc.qq as int) && (sc.qq as int) <= 536870912,
                0 < (sc.cc as int) && (sc.cc as int) <= 536870912,
        ;
    }
    let den: u128 = (sc.qq as u128) * (sc.cc as u128);
    let q: u128 = scaled / den;
    proof {
        assert(q <= scaled);
        assert(scaled < 0x1000000000000000000000);
    }
    let root = isqrt_u128(q);
    proof {
        lemma_spec_isqrt(q as int);
        assert((root as int) * (root as int) <= q as int);
        assert(root as int <= 0x40000000000) by (nonlinear_arith)
            requires
                0 <= root as int,
                (root as int) * (root as int) <= q as int,
                (q as int) < 0x1000000000000000000000,
        ;
    }
    let mag = if q - root * root > root {
        root + 1
    } else {
        root
    };
    if sc.num >= 0 {
        mag as i64
    } else {
        -(mag as i64)
    }
}

/// The decimal rendering of a score to two places, sign first.
pub open spec fn score_text_of(s: ScoreModel) -> Seq<char> {
    let c = score_cents(s);
    let a = if c < 0 {
        -c
    } else {
        c
    };
    let sign: Seq<char> = if c < 0 {
        seq!['-']
    } else {
        Seq::empty()
    };
    sign + dec_digits((a / 100) as nat) + seq!['.'] + seq![
        digit_char(((a / 10) % 10) as nat),
        digit_char((a % 10) as nat),
    ]
}

/// Renders a score to two decimal places.
pub fn render_score(sc: &Score) -> (r: String)
    requires
        score_wf(sc@),
    ensures
        r@ == score_text_of(sc@),
{
    let cents = score_cents_exec(sc);
    let a: u64 = if cents < 0 {
        (-cents) as u64
    } else {
        cents as u64
    };
    let mut out = String::new();
    if cents < 0 {
        out.append("-");
        proof {
            reveal_strlit("-");
            assert("-"@ =~= seq!['-']);
        }
    }
    let whole = u64_to_string(a / 100);
    out.append(whole.as_str());
    out.append(".");
    proof {
        reveal_strlit(".");
        assert("."@ =~= seq!['.']);
    }
    out.append(crate::strutil::digit_str((a / 10) % 10));
    out.append(crate::strutil::digit_str(a % 10));
    proof {
        assert(out@ =~= score_text_of(sc@));
    }
    out
}

/// A ranked result's text truncated to its first `per` words.
pub open spec fn trunc_words_of(text: Seq<char>, per: int) -> Seq<Seq<char>> {
    let w = words_of(text);
    if w.len() <= per {
        w
    } else {
        w.take(per)
    }
}

/// One numbered, score-annotated snippet.
pub open spec fn snippet_of(rank: int, h: HitModel, per: int) -> Seq<char> {
    "["@ + dec_digits(rank as nat) + "] (score: "@ + score_text_of(h.score) + ")\n"@ + join_spaces(
        trunc_words_of(h.text, per),
    )
}

/// The context text for the first `count` ranked results, separated by blank
/// lines.
pub open spec fn context_upto(hits: Seq<HitModel>, per: int, count: int) -> Seq<char>
    decreases count,
{
    if count <= 0 {
        Seq::empty()
    } else if count == 1 {
        snippet_of(1, hits[0], per)
    } else {
        context_upto(hits, per, count - 1) + "\n\n"@ + snippet_of(count, hits[count - 1], per)
    }
}

/// How many further results fit, scanning from result `i` with `acc` words
/// already spent: inclusion stops for good once a result's words would reach
/// or exceed the total budget.
pub open spec fn included_count_from(
    hits: Seq<HitModel>,
    per: int,
    max_total: int,
    i: int,
    acc: int,
) -> int
    decreases hits.len() - i,
{
    if i < 0 || i >= hits.len() {
        0
    } else {
        let w = trunc_words_of(hits[i].text, per).len();
        if acc + w >= max_total {
            0
        } else {
            1 + included_count_from(hits, per, max_total, i + 1, acc + w)
        }
    }
}

/// How many ranked results the context includes.
pub open spec fn included_count(hits: Seq<HitModel>, per: int, max_total: int) -> int {
    included_count_from(hits, per, max_total, 0, 0)
}

/// Total truncated word count of the first `count` results.
pub open spec fn words_total(hits: Seq<HitModel>, per: int, count: int) -> int
    decreases count,
{
    if count <= 0 {
        0
    } else {
        words_total(hits, per, count - 1) + trunc_words_of(hits[count - 1].text, per).len()
    }
}

/// The sources of the first `count` results, first occurrence kept.
pub open spec fn dedup_sources(hits: Seq<HitModel>, count: int) -> Seq<Seq<char>>
    decreases count,
{
    if count <= 0 {
        Seq::empty()
    } else {
        let d = dedup_sources(hits, count - 1);
        if d.contains(hits[count - 1].source) {
            d
        } else {
            d.push(hits[count - 1].source)
        }
    }
}

/// A built context: the annotated snippet text, the de-duplicated sources of
/// the included results, and how much was included.
pub struct ContextBuild {
    pub context: String,
    pub sources: Vec<String>,
    pub included: usize,
    pub total_words: usize,
}

/// Builds the bounded context from ranked results. The included word total
/// never reaches `max_total_words` unless nothing at all is included; a
/// result that would overflow the budget ends inclusion entirely.
pub fn build_context(hits: &Vec<SearchHit>, max_words_per_chunk: usize, max_total_words: usize) -> (r:
    ContextBuild)
    requires
        forall|i: int| 0 <= i < hits@.len() ==> score_wf((#[trigger] hits@[i])@.score),
    ensures
        ({
            let hv = hit_views(hits@);
            let per = max_words_per_chunk as int;
            let cnt = included_count(hv, per, max_total_words as int);
            &&& r.included == cnt
            &&& r.total_words == words_total(hv, per, cnt)
            &&& r.total_words <= max_total_words
            &&& r.context@ == context_upto(hv, per, cnt)
            &&& str_views(r.sources@) == dedup_sources(hv, cnt)
        }),
{
    let ghost hv = hit_views(hits@);
    let ghost per = max_words_per_chunk as int;
    let ghost maxt = max_total_words as int;
    let ghost cnt = included_count(hv, per, maxt);
    let mut ctx = String::new();
    let mut sources: Vec<String> = Vec::new();
    let mut total: usize = 0;
    let mut i: usize = 0;
    proof {
        assert(hv.len() == hits@.len());
        assert(str_views(sources@) =~= dedup_sources(hv, 0));
    }
    loop
        invariant_except_break
            i <= hits@.len() == hv.len(),
            forall|t: int| 0 <= t < hits@.len() ==> score_wf((#[trigger] hits@[t])@.score),
            hv == hit_views(hits@),
            per == max_words_per_chunk as int,
            maxt == max_total_words as int,
            cnt == included_count(hv, per, maxt),
            total <= max_total_words,
            cnt == i + included_count_from(hv, per, maxt, i as int, total as int),
            total as int == words_total(hv, per, i as int),
            ctx@ == context_upto(hv, per, i as int),
            str_views(sources@) == dedup_sources(hv, i as int),
        ensures
            cnt == i,
            total <= max_total_words,
            total as int == words_total(hv, per, i as int),
            ctx@ == context_upto(hv, per, i as int),
            str_views(sources@) == dedup_sources(hv, i as int),
        decreases hits@.len() - i,
    {
        if i == hits.len() {
            break ;
        }
        proof {
            assert(hv[i as int] == hits@[i as int]@);
        }
        let words = split_words(hits[i].text.as_str());
        let tlen = if words.len() <= max_words_per_chunk {
            words.len()
        } else {
            max_words_per_chunk
        };
        let truncated = clone_prefix(&words, tlen);
        proof {
            if words@.len() <= max_words_per_chunk {
                assert(str_views(words@).take(tlen as int) =~= str_views(words@));
            }
            assert(str_views(truncated@) == trunc_words_of(hv[i as int].text, per));
        }
        let w = truncated.len();
        if w >= max_total_words - total {
            // this result would reach or exceed the budget: stop including
            proof {
                assert(included_count_from(hv, per, maxt, i as int, total as int) == 0);
            }
            break ;
        }
        if i > 0 {
            ctx.append("\n\n");
        }
        ctx.append("[");
        let rank = u64_to_string((i as u64) + 1);
        ctx.append(rank.as_str());
        ctx.append("] (score: ");
        let stext = render_score(&hits[i].score);
        ctx.append(stext.as_str());
        ctx.append(")\n");
        let joined = join_words(&truncated);
        ctx.append(joined.as_str());
        proof {
            assert(snippet_of(i as int + 1, hv[i as int], per) == "["@ + dec_digits(
                (i + 1) as nat,
            ) + "] (score: "@ + score_text_of(hv[i as int].score) + ")\n"@ + join_spaces(
                trunc_words_of(hv[i as int].text, per),
            ));
            assert(ctx@ =~= context_upto(hv, per, i as int + 1));
        }
        let src = hits[i].source.clone();
        let present = contains_string(&sources, src.as_str());
        if !present {
            let ghost before = sources@;
            sources.push(src);
            proof {
                crate::strutil::lemma_str_views_push(before, src);
            }
        }
        proof {
            assert(src@ == hv[i as int].source);
            assert(str_views(sources@) == dedup_sources(hv, i as int + 1));
            assert(included_count_from(hv, per, maxt, i as int, total as int) == 1
                + included_count_from(hv, per, maxt, i as int + 1, (total + w) as int));
        }
        total = total + w;
        i = i + 1;
    }
    ContextBuild { context: ctx, sources, included: i, total_words: total }
}

} // verus!
