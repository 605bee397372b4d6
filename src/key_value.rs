//! Decoding of `KEY=VALUE` words.

use vstd::prelude::*;
use vstd::string::*;
use crate::error::{ErrorView, TranslateError};
use crate::string_map::{insert_all, pair_views, Entries, StringMap};

verus! {

/// `i` is the position of the first `=` in `w`.
pub open spec fn is_separator_at(w: Seq<char>, i: int) -> bool {
    &&& 0 <= i < w.len()
    &&& w[i] == '='
    &&& forall|j: int| 0 <= j < i ==> w[j] != '='
}

/// Splits `w` at its first `=` into key and value; `None` where `w` has no
/// `=`.
pub open spec fn split_once(w: Seq<char>) -> Option<(Seq<char>, Seq<char>)> {
    if exists|i: int| is_separator_at(w, i) {
        let i = choose|i: int| is_separator_at(w, i);
        Some((w.subrange(0, i), w.subrange(i + 1, w.len() as int)))
    } else {
        None
    }
}

/// Splits every word; fails with the first word that has no `=`.
pub open spec fn split_all(ws: Seq<Seq<char>>) -> Result<Entries, Seq<char>>
    decreases ws.len(),
{
    if ws.len() == 0 {
        Ok(Seq::empty())
    } else {
        match split_all(ws.drop_last()) {
            Err(w) => Err(w),
            Ok(pairs) => match split_once(ws.last()) {
                Some(kv) => Ok(pairs.push(kv)),
                None => Err(ws.last()),
            },
        }
    }
}

/// The ordered mapping that the words `ws` decode to: each word split at its
/// first `=`, and a later key overwriting an earlier one.
pub open spec fn decode_words(ws: Seq<Seq<char>>) -> Result<Entries, Seq<char>> {
    match split_all(ws) {
        Ok(pairs) => Ok(insert_all(Seq::empty(), pairs)),
        Err(w) => Err(w),
    }
}

/// Views of a vector of strings.
pub open spec fn views(v: Seq<String>) -> Seq<Seq<char>> {
    v.map_values(|s: String| s@)
}

/// Splits `word` at its first `=` into key and value.
pub fn split_key_value(word: &str) -> (r: Option<(String, String)>)
    ensures
        match r {
            Some(p) => split_once(word@) == Some((p.0@, p.1@)),
            None => split_once(word@) is None,
        },
{
    let n = word.unicode_len();
    let mut i: usize = 0;
    while i < n
        invariant
            n == word@.len(),
            i <= n,
            forall|j: int| 0 <= j < i ==> word@[j] != '=',
        decreases n - i,
    {
        if word.get_char(i) == '=' {
            let key = String::from_str(word.substring_char(0, i));
            let value = String::from_str(word.substring_char(i + 1, n));
            proof {
                assert(is_separator_at(word@, i as int));
                let c = choose|c: int| is_separator_at(word@, c);
                assert(c == i);
            }
            return Some((key, value));
        }
        i = i + 1;
    }
    None
}

/// Splits every word at its first `=`, keeping their order.
pub fn split_pairs(words: &Vec<String>) -> (r: Result<Vec<(String, String)>, TranslateError>)
    ensures
        match r {
            Ok(pairs) => split_all(views(words@)) == Ok::<Entries, Seq<char>>(pair_views(pairs@)),
            Err(e) => split_all(views(words@)) matches Err(w) && e@ == ErrorView::MissingSeparator(w, w),
        },
{
    let mut pairs: Vec<(String, String)> = Vec::new();
    let mut i: usize = 0;
    proof {
        assert(views(words@).take(0) =~= Seq::<Seq<char>>::empty());
        assert(pair_views(pairs@) =~= Seq::<(Seq<char>, Seq<char>)>::empty());
    }
    while i < words.len()
        invariant
            i <= words.len(),
            split_all(views(words@).take(i as int)) == Ok::<Entries, Seq<char>>(pair_views(pairs@)),
        decreases words.len() - i,
    {
        let ghost prefix = views(words@).take(i as int);
        let ghost next = views(words@).take(i + 1);
        proof {
            assert(next.drop_last() =~= prefix);
            assert(next.last() == words@[i as int]@);
        }
        match split_key_value(words[i].as_str()) {
            Some(kv) => {
                let ghost before = pair_views(pairs@);
                let ghost kv_view = (kv.0@, kv.1@);
                pairs.push(kv);
                proof {
                    assert(pair_views(pairs@) =~= before.push(kv_view));
                }
            },
            None => {
                proof {
                    assert(split_all(views(words@).take(i + 1)) == Err::<Entries, Seq<char>>(words@[i as int]@));
                    lemma_split_all_error_prefix(views(words@), i + 1);
                }
                return Err(
                    TranslateError::MissingSeparator {
                        input: words[i].clone(),
                        word: words[i].clone(),
                    },
                );
            },
        }
        i = i + 1;
    }
    proof {
        assert(views(words@).take(words@.len() as int) =~= views(words@));
    }
    Ok(pairs)
}

/// Decodes `KEY=VALUE` words into an ordered mapping, a later key
/// overwriting an earlier one.
pub fn decode_key_values(words: &Vec<String>) -> (r: Result<StringMap, TranslateError>)
    ensures
        match r {
            Ok(m) => decode_words(views(words@)) == Ok::<Entries, Seq<char>>(m@) && m.wf(),
            Err(e) => decode_words(views(words@)) matches Err(w) && e@ == ErrorView::MissingSeparator(w, w),
        },
{
    let pairs = split_pairs(words)?;
    let mut map = StringMap::new();
    map.extend(&pairs);
    Ok(map)
}

/// A failure on a prefix of the words is the failure of all of them.
pub proof fn lemma_split_all_error_prefix(ws: Seq<Seq<char>>, n: int)
    requires
        0 <= n <= ws.len(),
        split_all(ws.take(n)) is Err,
    ensures
        split_all(ws) == split_all(ws.take(n)),
    decreases ws.len() - n,
{
    if n < ws.len() {
        assert(ws.take(n + 1).drop_last() =~= ws.take(n));
        lemma_split_all_error_prefix(ws, n + 1);
    } else {
        assert(ws.take(n) =~= ws);
    }
}

} // verus!
