//! String helpers shared by the chunker, the context builder and the
//! orchestrator: whitespace tokenization and trimming (std calls behind
//! trusted wrappers), verified decimal rendering, substring and suffix tests.

use vstd::prelude::*;

verus! {

/// The word sequence that `str::split_whitespace` yields for a string.
pub uninterp spec fn words_of(s: Seq<char>) -> Seq<Seq<char>>;

/// What `str::trim` leaves of a string.
pub uninterp spec fn trimmed_of(s: Seq<char>) -> Seq<char>;

/// What `String::from_utf8` decodes a byte sequence to, when it is valid UTF-8.
pub uninterp spec fn decoded_utf8(bytes: Seq<u8>) -> Option<Seq<char>>;

/// The views of a sequence of owned strings.
pub open spec fn str_views(v: Seq<String>) -> Seq<Seq<char>> {
    v.map_values(|s: String| s@)
}

pub proof fn lemma_str_views_push(v: Seq<String>, s: String)
    ensures
        str_views(v.push(s)) == str_views(v).push(s@),
{
    assert(str_views(v.push(s)) =~= str_views(v).push(s@));
}

/// Relies on `str::split_whitespace`: it splits on Unicode whitespace into
/// non-empty pieces that contain no whitespace, yields nothing exactly for a
/// string that is empty or all whitespace — the strings `str::trim` maps to
/// the empty string — and depends on the characters alone.
#[verifier::external_body]
pub fn split_words(s: &str) -> (r: Vec<String>)
    ensures
        str_views(r@) == words_of(s@),
        r@.len() == 0 <==> trimmed_of(s@).len() == 0,
        s@.len() == 0 ==> r@.len() == 0,
        forall|i: int| 0 <= i < r@.len() ==> #[trigger] r@[i]@.len() > 0,
{
    s.split_whitespace().map(|w| w.to_string()).collect()
}

/// Joining words with single spaces: the words in order, a space between
/// each adjacent pair.
pub open spec fn join_spaces(ws: Seq<Seq<char>>) -> Seq<char>
    decreases ws.len(),
{
    if ws.len() == 0 {
        Seq::empty()
    } else if ws.len() == 1 {
        ws[0]
    } else {
        ws[0] + seq![' '] + join_spaces(ws.drop_first())
    }
}

proof fn lemma_join_spaces_push(s: Seq<Seq<char>>, x: Seq<char>)
    ensures
        join_spaces(s.push(x)) == if s.len() == 0 {
            x
        } else {
            join_spaces(s) + seq![' '] + x
        },
    decreases s.len(),
{
    if s.len() == 0 {
        assert(s.push(x) =~= seq![x]);
    } else {
        assert(s.push(x).drop_first() =~= s.drop_first().push(x));
        lemma_join_spaces_push(s.drop_first(), x);
        assert(join_spaces(s.push(x)) =~= join_spaces(s) + seq![' '] + x);
    }
}

/// Joins the words with a single space between each adjacent pair.
pub fn join_words(ws: &Vec<String>) -> (r: String)
    ensures
        r@ == join_spaces(str_views(ws@)),
{
    let mut out = String::new();
    let mut i: usize = 0;
    proof {
        reveal_strlit(" ");
        assert(" "@ =~= seq![' ']);
        assert(str_views(ws@).take(0) =~= Seq::<Seq<char>>::empty());
    }
    while i < ws.len()
        invariant
            i <= ws@.len(),
            " "@ == seq![' '],
            out@ == join_spaces(str_views(ws@).take(i as int)),
        decreases ws@.len() - i,
    {
        if i > 0 {
            out.append(" ");
        }
        out.append(ws[i].as_str());
        proof {
            let views = str_views(ws@);
            assert(views[i as int] == ws@[i as int]@);
            lemma_join_spaces_push(views.take(i as int), views[i as int]);
            assert(views.take(i as int).push(views[i as int]) =~= views.take(i as int + 1));
        }
        i = i + 1;
    }
    proof {
        assert(str_views(ws@).take(ws@.len() as int) =~= str_views(ws@));
    }
    out
}

/// Relies on `str::trim`: it removes leading and trailing Unicode
/// whitespace, depends on the characters alone, and leaves an empty string
/// empty.
#[verifier::external_body]
pub fn trim_string(s: &str) -> (r: String)
    ensures
        r@ == trimmed_of(s@),
        r@.len() <= s@.len(),
{
    s.trim().to_string()
}

/// Relies on `String::from_utf8`: it succeeds exactly on valid UTF-8 and
/// returns the decoded characters; the error is rendered to its display
/// text, about which nothing is claimed.
#[verifier::external_body]
pub fn decode_utf8(bytes: &Vec<u8>) -> (r: Result<String, String>)
    ensures
        r is Ok <==> decoded_utf8(bytes@) is Some,
        (r matches Ok(t) ==> Some(t@) == decoded_utf8(bytes@)),
{
    String::from_utf8(bytes.clone()).map_err(|e| e.to_string())
}

/// The digit character for a value below ten.
pub open spec fn digit_char(d: nat) -> char {
    if d == 0 {
        '0'
    } else if d == 1 {
        '1'
    } else if d == 2 {
        '2'
    } else if d == 3 {
        '3'
    } else if d == 4 {
        '4'
    } else if d == 5 {
        '5'
    } else if d == 6 {
        '6'
    } else if d == 7 {
        '7'
    } else if d == 8 {
        '8'
    } else {
        '9'
    }
}

/// The decimal rendering of a natural number, most significant digit first.
pub open spec fn dec_digits(n: nat) -> Seq<char>
    decreases n,
{
    if n < 10 {
        seq![digit_char(n)]
    } else {
        dec_digits(n / 10).push(digit_char(n % 10))
    }
}

/// The one-character string for a digit value.
pub fn digit_str(d: u64) -> (r: &'static str)
    requires
        d < 10,
    ensures
        r@ == seq![digit_char(d as nat)],
{
    match d {
        0 => {
            proof {
                reveal_strlit("0");
                assert("0"@ =~= seq![digit_char(0)]);
            }
            "0"
        },
        1 => {
            proof {
                reveal_strlit("1");
                assert("1"@ =~= seq![digit_char(1)]);
            }
            "1"
        },
        2 => {
            proof {
                reveal_strlit("2");
                assert("2"@ =~= seq![digit_char(2)]);
            }
            "2"
        },
        3 => {
            proof {
                reveal_strlit("3");
                assert("3"@ =~= seq![digit_char(3)]);
            }
            "3"
        },
        4 => {
            proof {
                reveal_strlit("4");
                assert("4"@ =~= seq![digit_char(4)]);
            }
            "4"
        },
        5 => {
            proof {
                reveal_strlit("5");
                assert("5"@ =~= seq![digit_char(5)]);
            }
            "5"
        },
        6 => {
            proof {
                reveal_strlit("6");
                assert("6"@ =~= seq![digit_char(6)]);
            }
            "6"
        },
        7 => {
            proof {
                reveal_strlit("7");
                assert("7"@ =~= seq![digit_char(7)]);
            }
            "7"
        },
        8 => {
            proof {
                reveal_strlit("8");
                assert("8"@ =~= seq![digit_char(8)]);
            }
            "8"
        },
        _ => {
            proof {
                reveal_strlit("9");
                assert("9"@ =~= seq![digit_char(9)]);
            }
            "9"
        },
    }
}

/// Renders a number in decimal.
pub fn u64_to_string(n: u64) -> (r: String)
    ensures
        r@ == dec_digits(n as nat),
    decreases n,
{
    if n < 10 {
        String::from_str(digit_str(n))
    } else {
        let mut s = u64_to_string(n / 10);
        s.append(digit_str(n % 10));
        proof {
            assert(s@ =~= dec_digits(n as nat));
        }
        s
    }
}

/// Whether `sub` occurs contiguously somewhere in `s`.
pub open spec fn contains_seq(s: Seq<char>, sub: Seq<char>) -> bool {
    exists|i: int| 0 <= i && i + sub.len() <= s.len() && #[trigger] s.subrange(i, i + sub.len())
        == sub
}

/// Substring test over characters.
pub fn str_contains(s: &str, sub: &str) -> (r: bool)
    ensures
        r == contains_seq(s@, sub@),
{
    let n = s.unicode_len();
    let m = sub.unicode_len();
    if m > n {
        return false;
    }
    if m == 0 {
        proof {
            assert(s@.subrange(0, 0 + sub@.len() as int) =~= sub@);
        }
        return true;
    }
    let mut i: usize = 0;
    while i <= n - m
        invariant
            1 <= m,
            m <= n <= s@.len(),
            n == s@.len(),
            m == sub@.len(),
            i <= n - m + 1,
            forall|t: int| 0 <= t < i ==> #[trigger] s@.subrange(t, t + sub@.len()) != sub@,
        decreases n - m - i + 1,
    {
        let mut j: usize = 0;
        let mut matches_here = true;
        while j < m
            invariant
                m <= n == s@.len(),
                m == sub@.len(),
                i + m <= n,
                j <= m,
                matches_here ==> forall|t: int| 0 <= t < j ==> s@[i + t] == sub@[t],
                !matches_here ==> s@.subrange(i as int, i + sub@.len()) != sub@,
            decreases m - j,
        {
            let a = s.get_char(i + j);
            let b = sub.get_char(j);
            if a != b {
                proof {
                    assert(s@.subrange(i as int, i + sub@.len())[j as int] == s@[i + j]);
                }
                matches_here = false;
                j = m;
            } else {
                j = j + 1;
            }
        }
        if matches_here {
            proof {
                assert(s@.subrange(i as int, i + sub@.len()) =~= sub@);
            }
            return true;
        }
        i = i + 1;
    }
    proof {
        assert forall|t: int| 0 <= t && t + sub@.len() <= s@.len() implies #[trigger] s@.subrange(
            t,
            t + sub@.len(),
        ) != sub@ by {
            assert(t < i);
        }
    }
    false
}

/// The first `k` strings, copied.
pub fn clone_prefix(v: &Vec<String>, k: usize) -> (r: Vec<String>)
    requires
        k <= v@.len(),
    ensures
        str_views(r@) == str_views(v@).take(k as int),
{
    let mut r: Vec<String> = Vec::new();
    let mut j: usize = 0;
    proof {
        assert(str_views(r@) =~= str_views(v@).take(0));
    }
    while j < k
        invariant
            j <= k <= v@.len(),
            str_views(r@) == str_views(v@).take(j as int),
        decreases k - j,
    {
        let w = v[j].clone();
        proof {
            assert(str_views(v@)[j as int] == v@[j as int]@);
        }
        let ghost before = r@;
        r.push(w);
        proof {
            lemma_str_views_push(before, w);
            assert(str_views(v@).take(j as int).push(str_views(v@)[j as int]) =~= str_views(
                v@,
            ).take(j as int + 1));
        }
        j = j + 1;
    }
    r
}

/// Whether one of the strings has exactly the given characters.
pub fn contains_string(v: &Vec<String>, x: &str) -> (r: bool)
    ensures
        r == str_views(v@).contains(x@),
{
    let mut i: usize = 0;
    while i < v.len()
        invariant
            i <= v@.len(),
            forall|t: int| 0 <= t < i ==> #[trigger] str_views(v@)[t] != x@,
        decreases v@.len() - i,
    {
        if str_eq(v[i].as_str(), x) {
            proof {
                assert(str_views(v@)[i as int] == x@);
            }
            return true;
        }
        proof {
            assert(str_views(v@)[i as int] == v@[i as int]@);
        }
        i = i + 1;
    }
    proof {
        assert forall|t: int| 0 <= t < str_views(v@).len() implies #[trigger] str_views(v@)[t]
            != x@ by {
            assert(t < i);
        }
    }
    false
}

/// Character-wise string equality.
pub fn str_eq(a: &str, b: &str) -> (r: bool)
    ensures
        r == (a@ == b@),
{
    let na = a.unicode_len();
    let nb = b.unicode_len();
    if na != nb {
        return false;
    }
    let mut j: usize = 0;
    while j < na
        invariant
            na == a@.len() == b@.len(),
            j <= na,
            forall|t: int| 0 <= t < j ==> a@[t] == b@[t],
        decreases na - j,
    {
        if a.get_char(j) != b.get_char(j) {
            return false;
        }
        j = j + 1;
    }
    proof {
        assert(a@ =~= b@);
    }
    true
}

/// Whether `s` ends with `suffix`.
pub open spec fn ends_with_seq(s: Seq<char>, suffix: Seq<char>) -> bool {
    s.len() >= suffix.len() && s.skip(s.len() - suffix.len()) == suffix
}

/// Suffix test over characters.
pub fn str_ends_with(s: &str, suffix: &str) -> (r: bool)
    ensures
        r == ends_with_seq(s@, suffix@),
{
    let n = s.unicode_len();
    let m = suffix.unicode_len();
    if m > n {
        return false;
    }
    let mut j: usize = 0;
    while j < m
        invariant
            m <= n == s@.len(),
            m == suffix@.len(),
            j <= m,
            forall|t: int| 0 <= t < j ==> s@[n - m + t] == suffix@[t],
        decreases m - j,
    {
        let a = s.get_char(n - m + j);
        let b = suffix.get_char(j);
        if a != b {
            proof {
                assert(s@.skip(s@.len() - suffix@.len())[j as int] == s@[n - m + j]);
            }
            return false;
        }
        j = j + 1;
    }
    proof {
        assert(s@.skip(s@.len() - suffix@.len()) =~= suffix@);
    }
    true
}

} // verus!
