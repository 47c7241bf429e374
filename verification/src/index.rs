//! The in-memory vector index: an ordered collection of chunks supporting
//! append, bulk deletion keyed by source, and ranked cosine-similarity
//! search. Insertion order is kept and serves as the tie-break in search.

use crate::score::{
    cosine_similarity, lemma_score_ge_total, lemma_score_gt_ge_trans, score_eqv, score_ge,
    score_ge_exec, score_gt, score_of, score_wf, valid_embedding, Score, ScoreModel,
};
use crate::strutil::str_eq;
use vstd::prelude::*;

verus! {

/// One stored chunk: a text window, its fixed-point embedding, and the name
/// of the document it came from.
pub struct Chunk {
    pub text: String,
    pub embedding: Vec<i64>,
    pub source: String,
}

/// The mathematical value of a stored chunk.
pub struct ChunkModel {
    pub text: Seq<char>,
    pub emb: Seq<i64>,
    pub source: Seq<char>,
}

impl View for Chunk {
    type V = ChunkModel;

    open spec fn view(&self) -> ChunkModel {
        ChunkModel { text: self.text@, emb: self.embedding@, source: self.source@ }
    }
}

/// Chunk invariant: a scoreable embedding and non-empty text.
pub open spec fn chunk_wf(c: ChunkModel) -> bool {
    valid_embedding(c.emb) && c.text.len() > 0
}

/// The models of a sequence of chunks.
pub open spec fn chunk_views(v: Seq<Chunk>) -> Seq<ChunkModel> {
    v.map_values(|c: Chunk| c@)
}

proof fn lemma_chunk_views_push(v: Seq<Chunk>, c: Chunk)
    ensures
        chunk_views(v.push(c)) == chunk_views(v).push(c@),
{
    assert(chunk_views(v.push(c)) =~= chunk_views(v).push(c@));
}

fn clone_embedding(v: &Vec<i64>) -> (r: Vec<i64>)
    ensures
        r@ == v@,
{
    let mut r: Vec<i64> = Vec::new();
    let mut i: usize = 0;
    while i < v.len()
        invariant
            i <= v@.len(),
            r@ == v@.take(i as int),
        decreases v@.len() - i,
    {
        r.push(v[i]);
        proof {
            assert(v@.take(i as int).push(v@[i as int]) =~= v@.take(i as int + 1));
        }
        i = i + 1;
    }
    proof {
        assert(v@.take(v@.len() as int) =~= v@);
    }
    r
}

fn clone_chunk(c: &Chunk) -> (r: Chunk)
    ensures
        r@ == c@,
{
    Chunk {
        text: c.text.clone(),
        embedding: clone_embedding(&c.embedding),
        source: c.source.clone(),
    }
}

/// The vector index. Its view is the sequence of chunk models in insertion
/// order.
pub struct VectorStore {
    chunks: Vec<Chunk>,
}

impl View for VectorStore {
    type V = Seq<ChunkModel>;

    closed spec fn view(&self) -> Seq<ChunkModel> {
        chunk_views(self.chunks@)
    }
}

impl VectorStore {
    /// Every stored chunk satisfies the chunk invariant.
    pub open spec fn wf(&self) -> bool {
        forall|i: int| 0 <= i < self@.len() ==> chunk_wf(#[trigger] self@[i])
    }

    /// A fresh, empty index.
    pub fn new() -> (r: VectorStore)
        ensures
            r@.len() == 0,
            r.wf(),
    {
        VectorStore { chunks: Vec::new() }
    }

    /// Number of stored chunks.
    pub fn count(&self) -> (r: usize)
        ensures
            r == self@.len(),
    {
        self.chunks.len()
    }

    /// Appends a chunk. No uniqueness is required of `(text, source)` pairs.
    pub fn add(&mut self, text: String, embedding: Vec<i64>, source: String)
        requires
            old(self).wf(),
            valid_embedding(embedding@),
            text@.len() > 0,
        ensures
            final(self)@ == old(self)@.push(
                ChunkModel { text: text@, emb: embedding@, source: source@ },
            ),
            final(self).wf(),
    {
        let ghost before = self.chunks@;
        let ghost model = ChunkModel { text: text@, emb: embedding@, source: source@ };
        self.chunks.push(Chunk { text, embedding, source });
        proof {
            lemma_chunk_views_push(before, self.chunks@.last());
            assert(self@ == chunk_views(before).push(model));
        }
    }

    /// Deletes every chunk whose source equals `source` exactly, keeping the
    /// survivors in their original order, and returns how many were removed:
    /// zero, with the index unchanged, when no chunk matches.
    pub fn remove_by_source(&mut self, source: &str) -> (r: usize)
        requires
            old(self).wf(),
        ensures
            final(self)@ == without_source(old(self)@, source@),
            r == old(self)@.len() - final(self)@.len(),
            final(self).wf(),
    {
        let n = self.chunks.len();
        let mut kept: Vec<Chunk> = Vec::new();
        let mut i: usize = 0;
        proof {
            assert(self@.take(0) =~= Seq::<ChunkModel>::empty());
            assert(chunk_views(kept@) =~= without_source(self@.take(0), source@));
        }
        while i < n
            invariant
                i <= n == self.chunks@.len(),
                self.wf(),
                n == self@.len(),
                chunk_views(kept@) == without_source(self@.take(i as int), source@),
                kept@.len() <= i,
                forall|u: int| 0 <= u < kept@.len() ==> chunk_wf(#[trigger] chunk_views(kept@)[u]),
            decreases n - i,
        {
            let c = &self.chunks[i];
            let same = str_eq(c.source.as_str(), source);
            let ghost taken = self@.take(i as int);
            proof {
                assert(self@[i as int] == self.chunks@[i as int]@);
                assert(self@.take(i as int + 1).drop_last() =~= taken);
                assert(self@.take(i as int + 1).last() == self@[i as int]);
            }
            if !same {
                let ghost kept_before = kept@;
                kept.push(clone_chunk(c));
                proof {
                    lemma_chunk_views_push(kept_before, kept@.last());
                    assert(kept@.last()@ == self@[i as int]);
                    assert(chunk_views(kept@) == without_source(taken, source@).push(
                        self@[i as int],
                    ));
                    assert(without_source(self@.take(i as int + 1), source@) == without_source(
                        taken,
                        source@,
                    ).push(self@[i as int]));
                }
            } else {
                proof {
                    assert(without_source(self@.take(i as int + 1), source@) == without_source(
                        taken,
                        source@,
                    ));
                }
            }
            i = i + 1;
        }
        proof {
            assert(self@.take(n as int) =~= self@);
        }
        let removed = n - kept.len();
        self.chunks = kept;
        removed
    }
}

/// A search hit: the chunk's text, its source, and the exact score.
pub struct SearchHit {
    pub text: String,
    pub source: String,
    pub score: Score,
}

/// The mathematical value of a search hit.
pub struct HitModel {
    pub text: Seq<char>,
    pub source: Seq<char>,
    pub score: ScoreModel,
}

impl View for SearchHit {
    type V = HitModel;

    open spec fn view(&self) -> HitModel {
        HitModel { text: self.text@, source: self.source@, score: self.score@ }
    }
}

/// The models of a sequence of search hits.
pub open spec fn hit_views(v: Seq<SearchHit>) -> Seq<HitModel> {
    v.map_values(|h: SearchHit| h@)
}

proof fn lemma_hit_views_push(v: Seq<SearchHit>, h: SearchHit)
    ensures
        hit_views(v.push(h)) == hit_views(v).push(h@),
{
    assert(hit_views(v.push(h)) =~= hit_views(v).push(h@));
}

/// The hit a stored chunk yields for a query.
pub open spec fn hit_of(c: ChunkModel, q: Seq<i64>) -> HitModel {
    HitModel { text: c.text, source: c.source, score: score_of(q, c.emb) }
}

/// Chunk `i` outranks chunk `j` for query `q`: a strictly better score, or
/// an equal score and earlier insertion.
pub open spec fn ranks_before(s: Seq<ChunkModel>, q: Seq<i64>, i: int, j: int) -> bool {
    score_gt(score_of(q, s[i].emb), score_of(q, s[j].emb)) || (score_eqv(
        score_of(q, s[i].emb),
        score_of(q, s[j].emb),
    ) && i < j)
}

/// `p` ranks the stored chunks: distinct indices of all of them, sorted by
/// descending score with insertion order breaking ties.
pub open spec fn is_ranking(p: Seq<int>, s: Seq<ChunkModel>, q: Seq<i64>) -> bool {
    &&& p.len() == s.len()
    &&& (forall|i: int| 0 <= i < p.len() ==> 0 <= #[trigger] p[i] < s.len())
    &&& (forall|i: int, j: int|
        #![trigger p[i], p[j]]
        0 <= i < j < p.len() ==> p[i] != p[j])
    &&& (forall|i: int, j: int|
        #![trigger p[i], p[j]]
        0 <= i < j < p.len() ==> ranks_before(s, q, p[i], p[j]))
}

/// What `search` returns for stored chunks `s`, query `q` and limit `k`:
/// the first `min(k, s.len())` hits of the ranking.
pub open spec fn search_post(s: Seq<ChunkModel>, q: Seq<i64>, k: int, r: Seq<HitModel>) -> bool {
    &&& r.len() == (if k < s.len() {
        k
    } else {
        s.len() as int
    })
    &&& (exists|p: Seq<int>|
        is_ranking(p, s, q) && (forall|i: int|
            0 <= i < r.len() ==> r[i] == hit_of(s[#[trigger] p[i]], q)))
    &&& (forall|i: int, j: int|
        #![trigger r[i], r[j]]
        0 <= i < j < r.len() ==> score_ge(r[i].score, r[j].score))
    &&& (forall|i: int| 0 <= i < r.len() ==> score_wf((#[trigger] r[i]).score))
}

/// In a ranking, chunks with equal scores stand in insertion order: the
/// earlier-inserted chunk comes first.
pub proof fn lemma_ranking_ties_keep_insertion_order(
    p: Seq<int>,
    s: Seq<ChunkModel>,
    q: Seq<i64>,
    i: int,
    j: int,
)
    requires
        is_ranking(p, s, q),
        0 <= i < j < p.len(),
        score_eqv(score_of(q, s[p[i]].emb), score_of(q, s[p[j]].emb)),
    ensures
        p[i] < p[j],
{
    assert(ranks_before(s, q, p[i], p[j]));
}

struct Ranked {
    idx: usize,
    score: Score,
}

impl VectorStore {
    /// Scores every stored chunk against the query, ranks them by descending
    /// cosine score with insertion order breaking ties, and returns the top
    /// `top_k` hits; all of them when fewer are stored.
    pub fn search(&self, query_embedding: &Vec<i64>, top_k: usize) -> (r: Vec<SearchHit>)
        requires
            self.wf(),
            valid_embedding(query_embedding@),
        ensures
            search_post(self@, query_embedding@, top_k as int, hit_views(r@)),
    {
        let ghost s = self@;
        let ghost q = query_embedding@;
        let n = self.chunks.len();
        proof {
            assert(s.len() == self.chunks@.len());
        }
        let mut order: Vec<Ranked> = Vec::new();
        let mut idx: usize = 0;
        while idx < n
            invariant
                idx <= n == s.len(),
                self.wf(),
                s == self@,
                q == query_embedding@,
                valid_embedding(q),
                n == self.chunks@.len(),
                order@.len() == idx,
                forall|u: int| 0 <= u < order@.len() ==> (#[trigger] order@[u]).idx < idx,
                forall|u: int|
                    0 <= u < order@.len() ==> (#[trigger] order@[u]).score@ == score_of(
                        q,
                        s[order@[u].idx as int].emb,
                    ) && score_wf(order@[u].score@),
                forall|u: int, v: int|
                    #![trigger order@[u], order@[v]]
                    0 <= u < v < order@.len() ==> order@[u].idx != order@[v].idx,
                forall|u: int, v: int|
                    #![trigger order@[u], order@[v]]
                    0 <= u < v < order@.len() ==> ranks_before(
                        s,
                        q,
                        order@[u].idx as int,
                        order@[v].idx as int,
                    ),
            decreases n - idx,
        {
            proof {
                assert(s[idx as int] == self.chunks@[idx as int]@);
                assert(chunk_wf(s[idx as int]));
            }
            let sc = cosine_similarity(query_embedding, &self.chunks[idx].embedding);
            let mut pos: usize = 0;
            loop
                invariant_except_break
                    pos <= order@.len(),
                    sc@ == score_of(q, s[idx as int].emb),
                    score_wf(sc@),
                    forall|u: int|
                        0 <= u < order@.len() ==> score_wf((#[trigger] order@[u]).score@),
                    forall|u: int| 0 <= u < pos ==> score_ge((#[trigger] order@[u]).score@, sc@),
                ensures
                    pos <= order@.len(),
                    forall|u: int| 0 <= u < pos ==> score_ge((#[trigger] order@[u]).score@, sc@),
                    pos < order@.len() ==> score_gt(sc@, order@[pos as int].score@),
                decreases order@.len() - pos,
            {
                if pos == order.len() {
                    break ;
                }
                let keep_going = score_ge_exec(&order[pos].score, &sc);
                if !keep_going {
                    proof {
                        lemma_score_ge_total(order@[pos as int].score@, sc@);
                    }
                    break ;
                }
                pos = pos + 1;
            }
            let entry = Ranked { idx, score: sc };
            let ghost obefore = order@;
            let ghost gentry = entry;
            order.insert(pos, entry);
            proof {
                obefore.insert_ensures(pos as int, gentry);
                let onow = order@;
                let gpos = pos as int;
                assert(onow.len() == obefore.len() + 1);
                assert(onow[gpos] == gentry);
                assert forall|u: int, v: int|
                    #![trigger onow[u], onow[v]]
                    0 <= u < v < onow.len() implies (onow[u].idx != onow[v].idx && ranks_before(
                    s,
                    q,
                    onow[u].idx as int,
                    onow[v].idx as int,
                )) by {
                    if v < gpos {
                        assert(onow[u] == obefore[u]);
                        assert(onow[v] == obefore[v]);
                    } else if v == gpos {
                        assert(onow[u] == obefore[u]);
                        assert(onow[v] == gentry);
                        // every earlier entry matches or beats the new score,
                        // and carries a smaller insertion index
                        assert(score_ge(obefore[u].score@, sc@));
                        if !score_ge(sc@, obefore[u].score@) {
                            assert(score_gt(obefore[u].score@, sc@));
                        } else {
                            assert(score_eqv(obefore[u].score@, sc@));
                        }
                        assert(obefore[u].idx < idx);
                    } else {
                        // v > gpos: the entry at v is an old entry at v - 1
                        assert(onow[v] == obefore[v - 1]);
                        if u < gpos {
                            assert(onow[u] == obefore[u]);
                            assert(u < v - 1);
                        } else if u == gpos {
                            assert(onow[u] == gentry);
                            assert(score_gt(sc@, obefore[gpos].score@));
                            if v - 1 > gpos {
                                assert(ranks_before(
                                    s,
                                    q,
                                    obefore[gpos].idx as int,
                                    obefore[v - 1].idx as int,
                                ));
                                assert(score_ge(
                                    score_of(q, s[obefore[gpos].idx as int].emb),
                                    score_of(q, s[obefore[v - 1].idx as int].emb),
                                ));
                                lemma_score_gt_ge_trans(
                                    sc@,
                                    obefore[gpos].score@,
                                    obefore[v - 1].score@,
                                );
                            }
                            // the new score strictly beats everything from pos on
                            assert(score_gt(sc@, obefore[v - 1].score@));
                            assert(obefore[v - 1].idx != idx);
                        } else {
                            assert(onow[u] == obefore[u - 1]);
                            assert(u - 1 < v - 1);
                        }
                    }
                }
            }
            idx = idx + 1;
        }
        let m = if top_k < n {
            top_k
        } else {
            n
        };
        let mut hits: Vec<SearchHit> = Vec::new();
        let mut i: usize = 0;
        while i < m
            invariant
                i <= m <= n == s.len(),
                self.wf(),
                s == self@,
                n == self.chunks@.len(),
                order@.len() == n,
                hits@.len() == i,
                forall|u: int| 0 <= u < order@.len() ==> (#[trigger] order@[u]).idx < n,
                forall|u: int|
                    0 <= u < order@.len() ==> (#[trigger] order@[u]).score@ == score_of(
                        q,
                        s[order@[u].idx as int].emb,
                    ) && score_wf(order@[u].score@),
                forall|u: int, v: int|
                    #![trigger order@[u], order@[v]]
                    0 <= u < v < order@.len() ==> order@[u].idx != order@[v].idx,
                forall|u: int, v: int|
                    #![trigger order@[u], order@[v]]
                    0 <= u < v < order@.len() ==> ranks_before(
                        s,
                        q,
                        order@[u].idx as int,
                        order@[v].idx as int,
                    ),
                forall|t: int|
                    0 <= t < i ==> #[trigger] hit_views(hits@)[t] == hit_of(
                        s[order@[t].idx as int],
                        q,
                    ),
            decreases m - i,
        {
            let e_idx = order[i].idx;
            let e_score = order[i].score;
            let c = &self.chunks[e_idx];
            proof {
                assert(s[e_idx as int] == self.chunks@[e_idx as int]@);
            }
            let h = SearchHit { text: c.text.clone(), source: c.source.clone(), score: e_score };
            let ghost hits_before = hits@;
            proof {
                assert(h@ == hit_of(s[e_idx as int], q));
            }
            hits.push(h);
            proof {
                lemma_hit_views_push(hits_before, hits@.last());
            }
            i = i + 1;
        }
        proof {
            let p = Seq::new(s.len(), |u: int| order@[u].idx as int);
            assert(is_ranking(p, s, q));
            let rv = hit_views(hits@);
            assert(rv.len() == hits@.len());
            assert forall|t: int| 0 <= t < rv.len() implies rv[t] == hit_of(
                s[#[trigger] p[t]],
                q,
            ) by {
                assert(p[t] == order@[t].idx as int);
            }
            assert forall|a: int, b: int|
                #![trigger rv[a], rv[b]]
                0 <= a < b < rv.len() implies score_ge(rv[a].score, rv[b].score) by {
                assert(ranks_before(s, q, order@[a].idx as int, order@[b].idx as int));
                assert(rv[a].score == score_of(q, s[order@[a].idx as int].emb));
                assert(rv[b].score == score_of(q, s[order@[b].idx as int].emb));
            }
            assert forall|t: int| 0 <= t < rv.len() implies score_wf((#[trigger] rv[t]).score) by {
                assert(rv[t].score == score_of(q, s[order@[t].idx as int].emb));
            }
            assert(search_post(s, q, top_k as int, rv));
        }
        hits
    }
}

/// The chunks that survive deleting `source`: exactly those whose source
/// differs, in their original order.
pub open spec fn without_source(s: Seq<ChunkModel>, source: Seq<char>) -> Seq<ChunkModel>
    decreases s.len(),
{
    if s.len() == 0 {
        Seq::empty()
    } else {
        let rest = without_source(s.drop_last(), source);
        if s.last().source != source {
            rest.push(s.last())
        } else {
            rest
        }
    }
}

/// Deleting an absent source removes nothing.
pub proof fn lemma_remove_absent(s: Seq<ChunkModel>, source: Seq<char>)
    requires
        forall|i: int| 0 <= i < s.len() ==> (#[trigger] s[i]).source != source,
    ensures
        without_source(s, source) == s,
    decreases s.len(),
{
    if s.len() > 0 {
        lemma_remove_absent(s.drop_last(), source);
        assert(without_source(s, source) =~= s);
    }
}

/// No survivor of a deletion carries the deleted source, every survivor is a
/// stored chunk, and chunks with another source all survive, in order.
pub proof fn lemma_remove_exact(s: Seq<ChunkModel>, source: Seq<char>)
    ensures
        forall|i: int|
            0 <= i < without_source(s, source).len() ==> (#[trigger] without_source(s, source)[i])
                .source != source,
        without_source(s, source).len() <= s.len(),
    decreases s.len(),
{
    if s.len() > 0 {
        lemma_remove_exact(s.drop_last(), source);
    }
}

} // verus!
