//! The fixed, deterministic language ordering the rollup iterates in:
//! registry indices sorted by language name. Cumulative prevalence bands
//! are only reproducible because every consumer uses this one order.

use vstd::prelude::*;
use crate::languages::{Language, LanguageV};
use crate::text::{lex_le, lemma_lex_le_trans, lemma_lex_lt_implies_le, str_lex_lt};

verus! {

/// `order` arranges each index below `len` exactly once.
pub open spec fn valid_order(order: Seq<usize>, len: nat) -> bool {
    &&& order.len() == len
    &&& forall|k: int| 0 <= k < order.len() ==> (#[trigger] order[k]) < len
    &&& order.no_duplicates()
    &&& forall|x: int| 0 <= x < len ==> order.contains(#[trigger] (x as usize))
}

/// The names of the arranged languages are non-decreasing.
pub open spec fn sorted_by_name(order: Seq<usize>, langs: Seq<LanguageV>) -> bool {
    forall|a: int, b: int|
        #![trigger order[a], order[b]]
        0 <= a < b < order.len() ==> lex_le(
            langs[order[a] as int].name,
            langs[order[b] as int].name,
        )
}

/// Arranges the registry's indices so that the languages' names come in
/// lexicographic order.
pub fn name_order(languages: &Vec<Language>) -> (r: Vec<usize>)
    ensures
        valid_order(r@, languages@.len() as nat),
        sorted_by_name(r@, languages.deep_view()),
{
    let ghost langs = languages.deep_view();
    let n = languages.len();
    let mut out: Vec<usize> = Vec::new();
    for j in 0..n
        invariant
            out@.len() == j,
            forall|k: int| 0 <= k < j ==> (#[trigger] out@[k]) == k,
    {
        out.push(j);
    }
    proof {
        assert(out@.no_duplicates());
        assert forall|x: int| 0 <= x < n implies out@.contains(#[trigger] (x as usize)) by {
            assert(out@[x] == x as usize);
        }
        assert(langs.len() == n);
    }
    let mut i: usize = 0;
    while i < n
        invariant
            i <= n,
            n == languages@.len(),
            langs == languages.deep_view(),
            langs.len() == n,
            out@.len() == n,
            forall|k: int| 0 <= k < n ==> (#[trigger] out@[k]) < n,
            out@.no_duplicates(),
            forall|x: int| 0 <= x < n ==> out@.contains(#[trigger] (x as usize)),
            forall|a: int, b: int|
                #![trigger out@[a], out@[b]]
                0 <= a < b < i ==> lex_le(langs[out@[a] as int].name, langs[out@[b] as int].name),
            forall|a: int, b: int|
                #![trigger out@[a], out@[b]]
                0 <= a < i <= b < n ==> lex_le(
                    langs[out@[a] as int].name,
                    langs[out@[b] as int].name,
                ),
        decreases n - i,
    {
        let mut m = i;
        let mut j = i + 1;
        proof {
            crate::text::lemma_lex_irrefl(langs[out@[i as int] as int].name);
        }
        while j < n
            invariant
                i <= m < j <= n,
                i < n,
                n == languages@.len(),
                langs == languages.deep_view(),
                langs.len() == n,
                out@.len() == n,
                forall|k: int| 0 <= k < n ==> (#[trigger] out@[k]) < n,
                forall|k: int|
                    i <= k < j ==> lex_le(
                        langs[out@[m as int] as int].name,
                        (#[trigger] langs[out@[k] as int]).name,
                    ),
            decreases n - j,
        {
            let ghost nm = langs[out@[m as int] as int].name;
            let ghost nj = langs[out@[j as int] as int].name;
            proof {
                assert(langs[out@[j as int] as int] == languages@[out@[j as int] as int]@);
                assert(langs[out@[m as int] as int] == languages@[out@[m as int] as int]@);
            }
            if str_lex_lt(languages[out[j]].name.as_str(), languages[out[m]].name.as_str()) {
                proof {
                    lemma_lex_lt_implies_le(nj, nm);
                    assert forall|k: int|
                        i <= k < j + 1 implies lex_le(
                        nj,
                        (#[trigger] langs[out@[k] as int]).name,
                    ) by {
                        if k < j {
                            lemma_lex_le_trans(nj, nm, langs[out@[k] as int].name);
                        } else {
                            crate::text::lemma_lex_irrefl(nj);
                        }
                    }
                }
                m = j;
            } else {
                proof {
                    assert(lex_le(nm, nj));
                }
            }
            j = j + 1;
        }
        let ghost s = out@;
        let a = out[i];
        let b = out[m];
        out[i] = b;
        out[m] = a;
        proof {
            let t = out@;
            let ii = i as int;
            let mm = m as int;
            assert(t[mm] == s[ii]);
            assert(t =~= s.update(ii, s[mm]).update(mm, s[ii]));
            assert(forall|k: int| 0 <= k < n && k != ii && k != mm ==> t[k] == s[k]);
            // the swap permutes values, so bounds, distinctness and
            // coverage carry over
            assert forall|k: int| 0 <= k < n implies (#[trigger] t[k]) < n by {
                assert(t[k] == s[k] || t[k] == s[ii] || t[k] == s[mm]);
            }
            assert forall|x: int, y: int| 0 <= x < y < n implies t[x] != t[y] by {
                let x0: int = if x == ii { mm } else if x == mm { ii } else { x };
                let y0: int = if y == ii { mm } else if y == mm { ii } else { y };
                assert(t[x] == s[x0]);
                assert(t[y] == s[y0]);
                assert(x0 != y0);
            }
            assert(t.no_duplicates());
            assert forall|x: int| 0 <= x < n implies t.contains(#[trigger] (x as usize)) by {
                let w = choose|w: int| 0 <= w < s.len() && s[w] == x as usize;
                if w == ii {
                    assert(t[mm] == x as usize);
                } else if w == mm {
                    assert(t[ii] == x as usize);
                } else {
                    assert(t[w] == x as usize);
                }
            }
            // the selected minimum extends the sorted prefix and the
            // partition
            assert forall|x: int, y: int|
                #![trigger t[x], t[y]]
                0 <= x < y < i + 1 implies lex_le(
                langs[t[x] as int].name,
                langs[t[y] as int].name,
            ) by {
                if y < ii {
                    assert(t[x] == s[x] && t[y] == s[y]);
                } else {
                    assert(y == ii);
                    assert(t[y] == s[mm]);
                    assert(t[x] == s[x]);
                }
            }
            assert forall|x: int, y: int|
                #![trigger t[x], t[y]]
                0 <= x < i + 1 <= y < n implies lex_le(
                langs[t[x] as int].name,
                langs[t[y] as int].name,
            ) by {
                if x < ii {
                    assert(t[x] == s[x]);
                    assert(t[y] == s[y] || t[y] == s[ii]);
                } else {
                    assert(x == ii);
                    assert(t[x] == s[mm]);
                    assert(t[y] == s[y] || t[y] == s[ii]);
                }
            }
        }
        i = i + 1;
    }
    out
}

} // verus!
