//! The query codec: turns a raw `key=value&key=value` query string into a
//! map from decoded key to decoded value, with last-value-wins on duplicate
//! keys. Percent-decoding is done by `urlencoding`; everything around it is
//! verified against [`decode_spec`].

use vstd::prelude::*;
use crate::text::{
    all_space, chars_to_string, is_all_space, plus_to_space, replace_plus, str_eq,
    string_to_chars,
};

verus! {

/// Split a character sequence on a separator, as `str::split` does: the
/// result always has one more element than there are separators.
pub open spec fn split_on(s: Seq<char>, sep: char) -> Seq<Seq<char>>
    decreases s.len(),
{
    if s.len() == 0 {
        seq![Seq::<char>::empty()]
    } else if s[0] == sep {
        seq![Seq::<char>::empty()] + split_on(s.skip(1), sep)
    } else {
        let r = split_on(s.skip(1), sep);
        seq![seq![s[0]] + r[0]] + r.skip(1)
    }
}

pub proof fn lemma_split_on_len(s: Seq<char>, sep: char)
    ensures
        split_on(s, sep).len() >= 1,
    decreases s.len(),
{
    if s.len() != 0 {
        lemma_split_on_len(s.skip(1), sep);
    }
}

pub open spec fn seq_views(r: Seq<Vec<char>>) -> Seq<Seq<char>> {
    r.map_values(|x: Vec<char>| x@)
}

fn split_vec(v: &Vec<char>, sep: char) -> (r: Vec<Vec<char>>)
    ensures
        seq_views(r@) == split_on(v@, sep),
{
    let mut r: Vec<Vec<char>> = Vec::new();
    let mut cur: Vec<char> = Vec::new();
    let mut i: usize = 0;
    proof {
        lemma_split_on_len(v@, sep);
        assert(v@.skip(0) =~= v@);
    }
    while i < v.len()
        invariant
            0 <= i <= v@.len(),
            split_on(v@.skip(i as int), sep).len() >= 1,
            split_on(v@, sep) =~~= seq_views(r@) + seq![cur@ + split_on(v@.skip(i as int), sep)[0]]
                + split_on(v@.skip(i as int), sep).skip(1),
        decreases v@.len() - i,
    {
        let c: char = v[i];
        proof {
            assert(v@.skip(i as int)[0] == v@[i as int]);
            assert(v@.skip(i as int).skip(1) =~= v@.skip(i + 1 as int));
            lemma_split_on_len(v@.skip(i + 1 as int), sep);
        }
        if c == sep {
            let done = cur;
            cur = Vec::new();
            r.push(done);
            proof {
                assert(seq_views(r@) =~= seq_views(r@.drop_last()).push(r@.last()@));
                assert(split_on(v@, sep) =~~= seq_views(r@) + seq![cur@ + split_on(
                    v@.skip(i + 1 as int),
                    sep,
                )[0]] + split_on(v@.skip(i + 1 as int), sep).skip(1));
            }
        } else {
            cur.push(c);
            proof {
                assert(cur@ + split_on(v@.skip(i + 1 as int), sep)[0] =~= cur@.drop_last()
                    + (seq![c] + split_on(v@.skip(i + 1 as int), sep)[0]));
                assert(split_on(v@, sep) =~~= seq_views(r@) + seq![cur@ + split_on(
                    v@.skip(i + 1 as int),
                    sep,
                )[0]] + split_on(v@.skip(i + 1 as int), sep).skip(1));
            }
        }
        i += 1;
    }
    proof {
        assert(v@.skip(v@.len() as int) =~= Seq::<char>::empty());
        assert(split_on(v@.skip(v@.len() as int), sep) =~~= seq![Seq::<char>::empty()]);
    }
    r.push(cur);
    proof {
        assert(seq_views(r@) =~~= seq_views(r@.drop_last()).push(r@.last()@));
        assert(seq_views(r@) =~~= split_on(v@, sep));
    }
    r
}

/// What `urlencoding::decode` yields on a given input; a function of the
/// characters alone.
pub uninterp spec fn percent_decoded(s: Seq<char>) -> Option<Seq<char>>;

/// Relies on `urlencoding::decode`: the result depends on the input alone,
/// an input without `%` comes back unchanged, and the call fails exactly
/// when the decoded bytes are not valid UTF-8.
#[verifier::external_body]
fn percent_decode(s: &str) -> (r: Option<String>)
    ensures
        (r is None) == (percent_decoded(s@) is None),
        (r matches Some(d) ==> percent_decoded(s@) == Some(d@)),
        (r is None ==> exists|i: int| 0 <= i < s@.len() && s@[i] == '%'),
        (r matches Some(d) ==> ((forall|i: int| 0 <= i < s@.len() ==> s@[i] != '%') ==> d@
            == s@)),
{
    match urlencoding::decode(s) {
        Ok(c) => Some(c.into_owned()),
        Err(_) => None,
    }
}

/// Why a query string was rejected.
#[derive(Debug, PartialEq, Eq)]
pub enum DecodeError {
    /// The trimmed input was empty.
    EmptyInput,
    /// A segment did not split into exactly two `=`-separated parts with a
    /// non-empty key; the payload is the raw segment.
    MalformedPair(String),
    /// Percent-decoding of the key or the value failed; the payload is the
    /// raw segment.
    EncodingError(String),
    /// No pair survived decoding.
    NoPairs,
}

pub enum DecodeErrorModel {
    EmptyInput,
    MalformedPair(Seq<char>),
    EncodingError(Seq<char>),
    NoPairs,
}

impl View for DecodeError {
    type V = DecodeErrorModel;

    open spec fn view(&self) -> DecodeErrorModel {
        match self {
            DecodeError::EmptyInput => DecodeErrorModel::EmptyInput,
            DecodeError::MalformedPair(s) => DecodeErrorModel::MalformedPair(s@),
            DecodeError::EncodingError(s) => DecodeErrorModel::EncodingError(s@),
            DecodeError::NoPairs => DecodeErrorModel::NoPairs,
        }
    }
}

pub open spec fn assoc_map(s: Seq<(String, String)>) -> Map<Seq<char>, Seq<char>>
    decreases s.len(),
{
    if s.len() == 0 {
        Map::empty()
    } else {
        assoc_map(s.drop_last()).insert(s.last().0@, s.last().1@)
    }
}

proof fn lemma_assoc_contains(s: Seq<(String, String)>, k: Seq<char>)
    ensures
        assoc_map(s).contains_key(k) <==> exists|i: int| 0 <= i < s.len() && (#[trigger] s[i]).0@
            == k,
    decreases s.len(),
{
    if s.len() > 0 {
        lemma_assoc_contains(s.drop_last(), k);
        if assoc_map(s).contains_key(k) {
            if s.last().0@ == k {
                assert(s[s.len() - 1].0@ == k);
            } else {
                assert(exists|i: int|
                    0 <= i < s.drop_last().len() && (#[trigger] s.drop_last()[i]).0@ == k);
                let i = choose|i: int|
                    0 <= i < s.drop_last().len() && (#[trigger] s.drop_last()[i]).0@ == k;
                assert(s[i].0@ == k);
            }
        }
        if exists|i: int| 0 <= i < s.len() && (#[trigger] s[i]).0@ == k {
            let i = choose|i: int| 0 <= i < s.len() && (#[trigger] s[i]).0@ == k;
            if i < s.len() - 1 {
                assert(s.drop_last()[i].0@ == k);
            }
        }
    }
}

proof fn lemma_assoc_value(s: Seq<(String, String)>, i: int)
    requires
        0 <= i < s.len(),
        forall|p: int, q: int| 0 <= p < q < s.len() ==> (#[trigger] s[p]).0@ != (#[trigger] s[q]).0@,
    ensures
        assoc_map(s).contains_key(s[i].0@),
        assoc_map(s)[s[i].0@] == s[i].1@,
    decreases s.len(),
{
    lemma_assoc_contains(s, s[i].0@);
    if i < s.len() - 1 {
        assert(s.drop_last()[i] == s[i]);
        lemma_assoc_value(s.drop_last(), i);
        assert(s[i].0@ != s.last().0@);
    }
}

/// A decoded parameter map: unique keys, viewed as a `Map` from key
/// characters to value characters.
#[derive(Debug)]
pub struct Params {
    entries: Vec<(String, String)>,
}

impl View for Params {
    type V = Map<Seq<char>, Seq<char>>;

    closed spec fn view(&self) -> Map<Seq<char>, Seq<char>> {
        assoc_map(self.entries@)
    }
}

impl Params {
    /// Keys are pairwise distinct.
    pub closed spec fn wf(&self) -> bool {
        forall|p: int, q: int|
            0 <= p < q < self.entries@.len() ==> (#[trigger] self.entries@[p]).0@
                != (#[trigger] self.entries@[q]).0@
    }

    pub fn new() -> (r: Params)
        ensures
            r.wf(),
            r@ == Map::<Seq<char>, Seq<char>>::empty(),
    {
        Params { entries: Vec::new() }
    }

    pub fn is_empty(&self) -> (r: bool)
        ensures
            r == (self@ == Map::<Seq<char>, Seq<char>>::empty()),
    {
        proof {
            if self.entries@.len() > 0 {
                lemma_assoc_contains(self.entries@, self.entries@.last().0@);
                assert(self.entries@[self.entries@.len() - 1].0@ == self.entries@.last().0@);
                assert(self@.contains_key(self.entries@.last().0@));
            }
        }
        self.entries.len() == 0
    }

    /// Look a key up; exactly the keys of the view are found.
    pub fn get(&self, k: &str) -> (r: Option<&String>)
        requires
            self.wf(),
        ensures
            (r matches Some(v) ==> self@.contains_key(k@) && v@ == self@[k@]),
            (r is None ==> !self@.contains_key(k@)),
    {
        let mut i: usize = 0;
        while i < self.entries.len()
            invariant
                0 <= i <= self.entries@.len(),
                self.wf(),
                forall|p: int| 0 <= p < i ==> (#[trigger] self.entries@[p]).0@ != k@,
            decreases self.entries@.len() - i,
        {
            if str_eq(self.entries[i].0.as_str(), k) {
                proof {
                    lemma_assoc_value(self.entries@, i as int);
                }
                return Some(&self.entries[i].1);
            }
            i += 1;
        }
        proof {
            lemma_assoc_contains(self.entries@, k@);
        }
        None
    }

    /// Insert with last-value-wins semantics.
    pub fn insert(&mut self, k: String, v: String)
        requires
            old(self).wf(),
        ensures
            final(self).wf(),
            final(self)@ == old(self)@.insert(k@, v@),
    {
        let mut i: usize = 0;
        while i < self.entries.len()
            invariant
                0 <= i <= self.entries@.len(),
                self.wf(),
                self == old(self),
                forall|p: int| 0 <= p < i ==> (#[trigger] self.entries@[p]).0@ != k@,
            decreases self.entries@.len() - i,
        {
            if str_eq(self.entries[i].0.as_str(), k.as_str()) {
                let ghost pre = self.entries@;
                self.entries.remove(i);
                self.entries.insert(i, (k, v));
                proof {
                    assert(self.entries@ =~= pre.update(i as int, self.entries@[i as int]));
                    assert(self.entries@[i as int].0@ == k@);
                    lemma_assoc_update(pre, i as int, self.entries@[i as int]);
                }
                return ;
            }
            i += 1;
        }
        let ghost pre = self.entries@;
        self.entries.push((k, v));
        proof {
            assert(self.entries@.drop_last() =~= pre);
            assert(forall|p: int|
                0 <= p < pre.len() ==> (#[trigger] self.entries@[p]) == pre[p]);
        }
    }
}

proof fn lemma_assoc_update(s: Seq<(String, String)>, i: int, e: (String, String))
    requires
        0 <= i < s.len(),
        forall|p: int, q: int| 0 <= p < q < s.len() ==> (#[trigger] s[p]).0@ != (#[trigger] s[q]).0@,
        e.0@ == s[i].0@,
    ensures
        assoc_map(s.update(i, e)) == assoc_map(s).insert(e.0@, e.1@),
    decreases s.len(),
{
    let t = s.update(i, e);
    if i == s.len() - 1 {
        assert(t.drop_last() =~= s.drop_last());
        assert(t.last() == e);
        assert(assoc_map(t) =~= assoc_map(s).insert(e.0@, e.1@));
    } else {
        assert(t.drop_last() =~= s.drop_last().update(i, e));
        assert(t.last() == s.last());
        lemma_assoc_update(s.drop_last(), i, e);
        assert(s[i].0@ != s.last().0@);
        assert(assoc_map(t) =~= assoc_map(s).insert(e.0@, e.1@));
    }
}

/// What one `&`-segment contributes: its two `=`-parts decoded, or the error
/// that rejects it.
pub open spec fn seg_decode(seg: Seq<char>) -> Result<(Seq<char>, Seq<char>), DecodeErrorModel> {
    let parts = split_on(seg, '=');
    if !(parts.len() == 2 && !all_space(parts[0])) {
        Err(DecodeErrorModel::MalformedPair(seg))
    } else {
        match (percent_decoded(parts[0]), percent_decoded(parts[1])) {
            (Some(k), Some(v)) => Ok((k, plus_to_space(v))),
            _ => Err(DecodeErrorModel::EncodingError(seg)),
        }
    }
}

pub open spec fn decode_segs(
    segs: Seq<Seq<char>>,
    acc: Map<Seq<char>, Seq<char>>,
) -> Result<Map<Seq<char>, Seq<char>>, DecodeErrorModel>
    decreases segs.len(),
{
    if segs.len() == 0 {
        Ok(acc)
    } else {
        match seg_decode(segs[0]) {
            Ok(kv) => decode_segs(segs.skip(1), acc.insert(kv.0, kv.1)),
            Err(e) => Err(e),
        }
    }
}

/// The whole codec contract: what decoding a raw query string yields.
pub open spec fn decode_spec(s: Seq<char>) -> Result<
    Map<Seq<char>, Seq<char>>,
    DecodeErrorModel,
> {
    if all_space(s) {
        Err(DecodeErrorModel::EmptyInput)
    } else {
        match decode_segs(split_on(s, '&'), Map::empty()) {
            Ok(m) => if m == Map::<Seq<char>, Seq<char>>::empty() {
                Err(DecodeErrorModel::NoPairs)
            } else {
                Ok(m)
            },
            Err(e) => Err(e),
        }
    }
}

pub open spec fn decode_matches(
    r: Result<Params, DecodeError>,
    m: Result<Map<Seq<char>, Seq<char>>, DecodeErrorModel>,
) -> bool {
    match r {
        Ok(p) => p.wf() && (m matches Ok(mm) && p@ == mm),
        Err(e) => (m matches Err(me) && e@ == me),
    }
}

/// Decode a raw query string into a parameter map.
pub fn extract_query_values(query: &str) -> (r: Result<Params, DecodeError>)
    ensures
        decode_matches(r, decode_spec(query@)),
{
    let v = string_to_chars(query);
    if is_all_space(&v) {
        return Err(DecodeError::EmptyInput);
    }
    let segs = split_vec(&v, '&');
    let ghost all = seq_views(segs@);
    let mut params = Params::new();
    let mut si: usize = 0;
    proof {
        assert(all.skip(0) =~= all);
        assert(all.len() == segs@.len());
    }
    while si < segs.len()
        invariant
            0 <= si <= segs@.len(),
            all == seq_views(segs@),
            all.len() == segs@.len(),
            all == split_on(query@, '&'),
            !all_space(query@),
            params.wf(),
            decode_segs(all, Map::empty()) == decode_segs(all.skip(si as int), params@),
        decreases segs@.len() - si,
    {
        let ghost seg = segs@[si as int]@;
        proof {
            assert(all.skip(si as int)[0] == all[si as int]);
            assert(all[si as int] == seg);
            assert(all.skip(si as int).skip(1) =~= all.skip(si + 1 as int));
        }
        let parts = split_vec(&segs[si], '=');
        let malformed: bool = if parts.len() != 2 {
            true
        } else {
            is_all_space(&parts[0])
        };
        proof {
            assert(seq_views(parts@).len() == parts@.len());
            if parts@.len() > 0 {
                assert(seq_views(parts@)[0] == parts@[0]@);
            }
        }
        if malformed {
            let seg_str = chars_to_string(&segs[si]);
            proof {
                assert(seg_decode(seg) == Err::<(Seq<char>, Seq<char>), DecodeErrorModel>(
                    DecodeErrorModel::MalformedPair(seg),
                ));
                assert(decode_segs(all.skip(si as int), params@) == Err::<
                    Map<Seq<char>, Seq<char>>,
                    DecodeErrorModel,
                >(DecodeErrorModel::MalformedPair(seg)));
            }
            return Err(DecodeError::MalformedPair(seg_str));
        }
        proof {
            assert(seq_views(parts@)[1] == parts@[1]@);
        }
        let key_raw = chars_to_string(&parts[0]);
        let val_raw = chars_to_string(&parts[1]);
        let key_dec = match percent_decode(key_raw.as_str()) {
            Some(kd) => kd,
            None => {
                let seg_str = chars_to_string(&segs[si]);
                proof {
                    assert(seg_decode(seg) == Err::<(Seq<char>, Seq<char>), DecodeErrorModel>(
                        DecodeErrorModel::EncodingError(seg),
                    ));
                }
                return Err(DecodeError::EncodingError(seg_str));
            },
        };
        let val_dec = match percent_decode(val_raw.as_str()) {
            Some(vd) => vd,
            None => {
                let seg_str = chars_to_string(&segs[si]);
                proof {
                    assert(seg_decode(seg) == Err::<(Seq<char>, Seq<char>), DecodeErrorModel>(
                        DecodeErrorModel::EncodingError(seg),
                    ));
                }
                return Err(DecodeError::EncodingError(seg_str));
            },
        };
        let val_chars = string_to_chars(val_dec.as_str());
        let val_plus = replace_plus(&val_chars);
        let val_fin = chars_to_string(&val_plus);
        proof {
            assert(seg_decode(seg) == Ok::<(Seq<char>, Seq<char>), DecodeErrorModel>(
                (key_dec@, plus_to_space(val_dec@)),
            ));
            assert(val_fin@ == plus_to_space(val_dec@));
        }
        params.insert(key_dec, val_fin);
        si += 1;
    }
    proof {
        assert(all.skip(segs@.len() as int) =~= Seq::<Seq<char>>::empty());
    }
    if params.is_empty() {
        return Err(DecodeError::NoPairs);
    }
    Ok(params)
}

} // verus!
