//! Configuration parsing: the watched-URL list, one configuration value
//! holding whitespace-separated URLs.
//!
//! No uniqueness is enforced: a URL that appears twice is kept twice and
//! each occurrence is checked independently.
use vstd::prelude::*;

verus! {

/// ASCII whitespace: the characters that separate URLs in the list.
pub open spec fn is_space(c: char) -> bool {
    c == ' ' || c == '\t' || c == '\n' || c == '\r' || c == '\u{b}' || c == '\u{c}'
}

/// Length of the run of non-whitespace characters at the head of `s`.
pub open spec fn token_len(s: Seq<char>) -> nat
    decreases s.len(),
{
    if s.len() == 0 || is_space(s[0]) {
        0
    } else {
        (1 + token_len(s.drop_first())) as nat
    }
}

proof fn lemma_token_len_le(s: Seq<char>)
    ensures
        token_len(s) <= s.len(),
    decreases s.len(),
{
    if s.len() == 0 || is_space(s[0]) {
    } else {
        lemma_token_len_le(s.drop_first());
    }
}

/// The URL list a configuration value holds: the maximal runs of
/// non-whitespace characters, in order.
pub open spec fn split_ws(s: Seq<char>) -> Seq<Seq<char>>
    decreases s.len(),
    via split_ws_dec
{
    if s.len() == 0 {
        Seq::empty()
    } else if is_space(s[0]) {
        split_ws(s.drop_first())
    } else {
        seq![s.take(token_len(s) as int)] + split_ws(s.skip(token_len(s) as int))
    }
}

#[via_fn]
proof fn split_ws_dec(s: Seq<char>) {
    lemma_token_len_le(s);
}

proof fn lemma_token_len_is(t: Seq<char>, m: int)
    requires
        0 <= m <= t.len(),
        forall|k: int| 0 <= k < m ==> !is_space(t[k]),
        m == t.len() || is_space(t[m]),
    ensures
        token_len(t) == m,
    decreases m,
{
    if m == 0 {
    } else {
        assert(!is_space(t[0]));
        assert forall|k: int| 0 <= k < m - 1 implies !is_space(t.drop_first()[k]) by {
            assert(t.drop_first()[k] == t[k + 1]);
        }
        lemma_token_len_is(t.drop_first(), m - 1);
    }
}

/// Whether `c` separates URLs.
fn is_space_char(c: char) -> (r: bool)
    ensures
        r == is_space(c),
{
    c == ' ' || c == '\t' || c == '\n' || c == '\r' || c == '\u{b}' || c == '\u{c}'
}

/// Splits the configured URL list on whitespace: the URLs come back as
/// the maximal runs of non-whitespace characters, in the order given,
/// duplicates kept.
pub fn split_urls(s: &str) -> (urls: Vec<String>)
    ensures
        urls.deep_view() == split_ws(s@),
{
    let n = s.unicode_len();
    let mut urls: Vec<String> = Vec::new();
    let mut i: usize = 0;
    proof {
        assert(s@.skip(0) =~= s@);
        assert(urls.deep_view() =~= Seq::<Seq<char>>::empty());
    }
    while i < n
        invariant
            i <= n,
            n == s@.len(),
            split_ws(s@) == urls.deep_view() + split_ws(s@.skip(i as int)),
        decreases n - i,
    {
        let c = s.get_char(i);
        if is_space_char(c) {
            proof {
                let t = s@.skip(i as int);
                assert(t[0] == s@[i as int]);
                assert(t.drop_first() =~= s@.skip(i + 1));
            }
            i += 1;
        } else {
            let start = i;
            let mut j: usize = i;
            let mut done = false;
            while !done
                invariant
                    start <= j <= n,
                    n == s@.len(),
                    start < n,
                    forall|k: int| start <= k < j ==> !is_space(s@[k]),
                    done ==> (j == n || is_space(s@[j as int])),
                decreases n - j + (if done { 0int } else { 1int }),
            {
                if j < n {
                    if is_space_char(s.get_char(j)) {
                        done = true;
                    } else {
                        j += 1;
                    }
                } else {
                    done = true;
                }
            }
            let ghost pre = urls.deep_view();
            let ghost t = s@.skip(start as int);
            proof {
                assert(t[0] == s@[start as int]);
                assert forall|k: int| 0 <= k < j - start implies !is_space(t[k]) by {
                    assert(t[k] == s@[start + k]);
                }
                if j < n {
                    assert(is_space(t[j - start]));
                }
                lemma_token_len_is(t, j - start);
                assert(t.take(j - start) =~= s@.subrange(start as int, j as int));
                assert(t.skip(j - start) =~= s@.skip(j as int));
                assert(split_ws(t) == seq![s@.subrange(start as int, j as int)] + split_ws(
                    s@.skip(j as int),
                ));
            }
            let token = s.substring_char(start, j);
            urls.push(String::from_str(token));
            proof {
                assert(urls.deep_view() =~= pre + seq![s@.subrange(start as int, j as int)]);
                assert((pre + seq![s@.subrange(start as int, j as int)]) + split_ws(
                    s@.skip(j as int),
                ) =~= pre + (seq![s@.subrange(start as int, j as int)] + split_ws(
                    s@.skip(j as int),
                )));
            }
            i = j;
        }
    }
    proof {
        assert(s@.skip(n as int) =~= Seq::<char>::empty());
        assert(urls.deep_view() + Seq::<Seq<char>>::empty() =~= urls.deep_view());
    }
    urls
}

} // verus!
