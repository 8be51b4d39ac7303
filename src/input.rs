//! Reading command-line words: a task name with `key:value` metadata, and
//! metadata keys written as unambiguous prefixes.
use vstd::prelude::*;
use vstd::string::StringExecFns;
use crate::text::{colon_in, find_colon};
use crate::task::Priority;
use crate::date_phrase::{is_word, eq_word};

verus! {

/// A task name and its metadata, read from words.
#[derive(Clone, Debug, PartialEq)]
pub struct ParsedInput {
    pub name: String,
    /// `key:value` pairs; each key occurs once, the last value given wins.
    pub metadata: Vec<(String, String)>,
}

/// A word `key:value` with a non-empty key.
pub open spec fn is_meta(a: Seq<char>) -> bool {
    colon_in(a) matches Some(p) && p > 0
}

/// The key of a metadata word.
pub open spec fn meta_key(a: Seq<char>) -> Seq<char> {
    a.subrange(0, colon_in(a).unwrap())
}

/// The value of a metadata word: all after its first `:`.
pub open spec fn meta_value(a: Seq<char>) -> Seq<char> {
    a.subrange(colon_in(a).unwrap() + 1, a.len() as int)
}

/// The words that are part of the name, in order.
pub open spec fn name_words(args: Seq<String>) -> Seq<Seq<char>>
    decreases args.len(),
{
    if args.len() == 0 {
        Seq::empty()
    } else if is_meta(args.last()@) {
        name_words(args.drop_last())
    } else {
        name_words(args.drop_last()).push(args.last()@)
    }
}

/// Words joined by single spaces.
pub open spec fn joined(words: Seq<Seq<char>>) -> Seq<char>
    decreases words.len(),
{
    if words.len() == 0 {
        Seq::empty()
    } else if words.len() == 1 {
        words[0]
    } else {
        joined(words.drop_last()) + " "@ + words.last()
    }
}

/// The metadata of the words, the later of two equal keys winning.
pub open spec fn metadata_of(args: Seq<String>) -> Map<Seq<char>, Seq<char>>
    decreases args.len(),
{
    if args.len() == 0 {
        Map::empty()
    } else if is_meta(args.last()@) {
        metadata_of(args.drop_last()).insert(meta_key(args.last()@), meta_value(args.last()@))
    } else {
        metadata_of(args.drop_last())
    }
}

/// The pairs hold each key once and say what `m` says.
pub open spec fn pairs_are(pairs: Seq<(String, String)>, m: Map<Seq<char>, Seq<char>>) -> bool {
    &&& forall|a: int, b: int| 0 <= a < b < pairs.len() ==> (#[trigger] pairs[a]).0@ != (#[trigger] pairs[b]).0@
    &&& forall|k: int| 0 <= k < pairs.len() ==> m.contains_key((#[trigger] pairs[k]).0@) && m[pairs[k].0@] == pairs[k].1@
    &&& forall|key: Seq<char>| #[trigger] m.contains_key(key) ==> exists|k: int| 0 <= k < pairs.len() && pairs[k].0@ == key
}

/// Where `key` is among the pairs.
fn find_key(pairs: &Vec<(String, String)>, key: &String) -> (r: Option<usize>)
    ensures
        match r {
            Some(j) => j < pairs@.len() && pairs@[j as int].0@ == key@,
            None => forall|k: int| 0 <= k < pairs@.len() ==> (#[trigger] pairs@[k]).0@ != key@,
        },
{
    let mut j: usize = 0;
    while j < pairs.len()
        invariant
            j <= pairs@.len(),
            forall|k: int| 0 <= k < j ==> (#[trigger] pairs@[k]).0@ != key@,
        decreases pairs@.len() - j,
    {
        if pairs[j].0 == *key {
            return Some(j);
        }
        j = j + 1;
    }
    None
}

/// Reads words as a task name and `key:value` metadata. A word with a `:`
/// after a non-empty key is metadata (the value is everything after the
/// first `:`); the other words, joined by spaces, form the name.
pub fn parse_args(args: &[String]) -> (r: ParsedInput)
    ensures
        r.name@ == joined(name_words(args@)),
        pairs_are(r.metadata@, metadata_of(args@)),
{
    let mut name = String::new();
    let mut any = false;
    let mut metadata: Vec<(String, String)> = Vec::new();
    let mut i: usize = 0;
    while i < args.len()
        invariant
            i <= args@.len(),
            name@ == joined(name_words(args@.subrange(0, i as int))),
            any == (name_words(args@.subrange(0, i as int)).len() > 0),
            pairs_are(metadata@, metadata_of(args@.subrange(0, i as int))),
        decreases args@.len() - i,
    {
        let arg = &args[i];
        let ghost pre = args@.subrange(0, i as int);
        assert(args@.subrange(0, i + 1).drop_last() == pre);
        assert(args@.subrange(0, i + 1).last() == *arg);
        let colon = find_colon(arg.as_str());
        let meta = match colon {
            Some(p) => p > 0,
            None => false,
        };
        if meta {
            let p = colon.unwrap();
            let key = String::from_str(arg.as_str().substring_char(0, p));
            let len = arg.as_str().unicode_len();
            let value = String::from_str(arg.as_str().substring_char(p + 1, len));
            let ghost m0 = metadata_of(pre);
            let ghost md0 = metadata@;
            let found = find_key(&metadata, &key);
            let ghost m1 = m0.insert(key@, value@);
            if let Some(j) = found {
                metadata.set(j, (key, value));
                assert forall|a: int, b: int| 0 <= a < b < metadata@.len() implies (#[trigger] metadata@[a]).0@
                    != (#[trigger] metadata@[b]).0@ by {
                    if a == j {
                        assert(md0[b].0@ != md0[j as int].0@);
                    } else if b == j {
                        assert(md0[a].0@ != md0[j as int].0@);
                    }
                }
                assert forall|key2: Seq<char>| #[trigger] m1.contains_key(key2) implies exists|k: int|
                    0 <= k < metadata@.len() && metadata@[k].0@ == key2 by {
                    if key2 != key@ {
                        let k = choose|k: int| 0 <= k < md0.len() && md0[k].0@ == key2;
                        assert(metadata@[k].0@ == key2);
                    } else {
                        assert(metadata@[j as int].0@ == key2);
                    }
                }
                assert forall|k: int| 0 <= k < metadata@.len() implies m1.contains_key((#[trigger] metadata@[k]).0@)
                    && m1[metadata@[k].0@] == metadata@[k].1@ by {
                    if k != j {
                        assert(md0[k].0@ != md0[j as int].0@);
                    }
                }
            } else {
                metadata.push((key, value));
                assert forall|key2: Seq<char>| #[trigger] m1.contains_key(key2) implies exists|k: int|
                    0 <= k < metadata@.len() && metadata@[k].0@ == key2 by {
                    if key2 != key@ {
                        let k = choose|k: int| 0 <= k < md0.len() && md0[k].0@ == key2;
                        assert(metadata@[k].0@ == key2);
                    } else {
                        assert(metadata@[md0.len() as int].0@ == key2);
                    }
                }
                assert forall|k: int| 0 <= k < metadata@.len() implies m1.contains_key((#[trigger] metadata@[k]).0@)
                    && m1[metadata@[k].0@] == metadata@[k].1@ by {
                    if k < md0.len() {
                        assert(md0[k].0@ != key@);
                    }
                }
            }
            assert(key@ == meta_key(arg@));
            assert(value@ == meta_value(arg@));
        } else {
            let ghost ws = name_words(pre);
            let ghost n0 = name@;
            proof {
                reveal_strlit(" ");
            }
            if any {
                name.append(" ");
            }
            name.append(arg.as_str());
            any = true;
            assert(name_words(args@.subrange(0, i + 1)) == ws.push(arg@));
            assert(ws.push(arg@).drop_last() == ws);
            proof {
                if ws.len() > 0 {
                    assert(name@ == n0 + " "@ + arg@);
                } else {
                    assert(name@ =~= arg@);
                }
            }
        }
        i = i + 1;
    }
    assert(args@.subrange(0, args@.len() as int) == args@);
    ParsedInput { name, metadata }
}

impl ParsedInput {
    /// The value given for `key`, if any.
    pub fn get(&self, key: &str) -> (r: Option<String>)
        ensures
            match r {
                Some(v) => exists|k: int| 0 <= k < self.metadata@.len() && self.metadata@[k].0@ == key@ && self.metadata@[k].1@ == v@,
                None => forall|k: int| 0 <= k < self.metadata@.len() ==> (#[trigger] self.metadata@[k]).0@ != key@,
            },
    {
        let mut i: usize = 0;
        while i < self.metadata.len()
            invariant
                i <= self.metadata@.len(),
                forall|k: int| 0 <= k < i ==> (#[trigger] self.metadata@[k]).0@ != key@,
            decreases self.metadata@.len() - i,
        {
            if str_equal(self.metadata[i].0.as_str(), key) {
                return Some(self.metadata[i].1.clone());
            }
            i = i + 1;
        }
        None
    }
}

/// Whether two texts are equal.
pub fn str_equal(a: &str, b: &str) -> (r: bool)
    ensures
        r == (a@ == b@),
{
    let n = a.unicode_len();
    if n != b.unicode_len() {
        return false;
    }
    let mut i: usize = 0;
    while i < n
        invariant
            n == a@.len() == b@.len(),
            i <= n,
            forall|k: int| 0 <= k < i ==> a@[k] == b@[k],
        decreases n - i,
    {
        if a.get_char(i) != b.get_char(i) {
            return false;
        }
        i = i + 1;
    }
    assert(a@ =~= b@);
    true
}

/// Whether `p` is a prefix of `s`.
pub fn starts_with(s: &str, p: &str) -> (r: bool)
    ensures
        r == (p@.len() <= s@.len() && s@.subrange(0, p@.len() as int) == p@),
{
    let n = p.unicode_len();
    if n > s.unicode_len() {
        return false;
    }
    let mut i: usize = 0;
    while i < n
        invariant
            n == p@.len() <= s@.len(),
            i <= n,
            forall|k: int| 0 <= k < i ==> s@[k] == p@[k],
        decreases n - i,
    {
        if s.get_char(i) != p.get_char(i) {
            assert(s@.subrange(0, n as int)[i as int] != p@[i as int]);
            return false;
        }
        i = i + 1;
    }
    assert(s@.subrange(0, n as int) =~= p@);
    true
}

/// Why a key could not be expanded.
#[derive(Clone, Debug, PartialEq)]
pub enum KeyError {
    /// No candidate starts with the key.
    Unknown(String),
    /// Several candidates start with the key; they are given in order.
    Ambiguous(String, Vec<String>),
}

/// Candidates that start with `key`, in order.
pub open spec fn prefixed(candidates: Seq<&str>, key: Seq<char>) -> Seq<Seq<char>>
    decreases candidates.len(),
{
    if candidates.len() == 0 {
        Seq::empty()
    } else {
        let c = candidates.last()@;
        if key.len() <= c.len() && c.subrange(0, key.len() as int) == key {
            prefixed(candidates.drop_last(), key).push(c)
        } else {
            prefixed(candidates.drop_last(), key)
        }
    }
}

/// Whether some candidate is exactly `key`.
pub open spec fn has_candidate(candidates: Seq<&str>, key: Seq<char>) -> bool {
    exists|k: int| 0 <= k < candidates.len() && candidates[k]@ == key
}

/// Expands `key` to the candidate it names: the candidate equal to it, else
/// the only candidate it is a prefix of.
pub fn expand_key(key: &str, candidates: &[&str]) -> (r: Result<String, KeyError>)
    ensures
        has_candidate(candidates@, key@) ==> (r matches Ok(s) && s@ == key@),
        !has_candidate(candidates@, key@) ==> match r {
            Ok(s) => prefixed(candidates@, key@).len() == 1 && s@ == prefixed(candidates@, key@)[0],
            Err(KeyError::Unknown(k)) => prefixed(candidates@, key@).len() == 0 && k@ == key@,
            Err(KeyError::Ambiguous(k, m)) => prefixed(candidates@, key@).len() > 1 && k@ == key@ && m@.len()
                == prefixed(candidates@, key@).len() && forall|q: int|
                0 <= q < m@.len() ==> (#[trigger] m@[q])@ == prefixed(candidates@, key@)[q],
        },
{
    let mut i: usize = 0;
    while i < candidates.len()
        invariant
            i <= candidates@.len(),
            forall|k: int| 0 <= k < i ==> candidates@[k]@ != key@,
        decreases candidates@.len() - i,
    {
        if str_equal(candidates[i], key) {
            return Ok(String::from_str(key));
        }
        i = i + 1;
    }
    let mut matches: Vec<String> = Vec::new();
    let mut j: usize = 0;
    while j < candidates.len()
        invariant
            j <= candidates@.len(),
            matches@.len() == prefixed(candidates@.subrange(0, j as int), key@).len(),
            forall|q: int| 0 <= q < matches@.len() ==> (#[trigger] matches@[q])@ == prefixed(candidates@.subrange(0, j as int), key@)[q],
        decreases candidates@.len() - j,
    {
        assert(candidates@.subrange(0, j + 1).drop_last() == candidates@.subrange(0, j as int));
        if starts_with(candidates[j], key) {
            matches.push(String::from_str(candidates[j]));
        }
        j = j + 1;
    }
    assert(candidates@.subrange(0, candidates@.len() as int) == candidates@);
    if matches.len() == 1 {
        Ok(matches.remove(0))
    } else if matches.len() == 0 {
        Err(KeyError::Unknown(String::from_str(key)))
    } else {
        Err(KeyError::Ambiguous(String::from_str(key), matches))
    }
}

/// The priority a word names, in any case: `h`/`high`, `m`/`medium`/`med`,
/// `l`/`low`; Medium for any other word.
pub open spec fn priority_word(s: Seq<char>) -> Priority {
    if is_word(s, "h"@) || is_word(s, "high"@) {
        Priority::High
    } else if is_word(s, "l"@) || is_word(s, "low"@) {
        Priority::Low
    } else {
        Priority::Medium
    }
}

/// Reads a priority word; anything unknown is Medium.
pub fn parse_priority_str(s: &str) -> (r: Priority)
    ensures
        r == priority_word(s@),
{
    if eq_word(s, "h") || eq_word(s, "high") {
        Priority::High
    } else if eq_word(s, "l") || eq_word(s, "low") {
        Priority::Low
    } else {
        Priority::Medium
    }
}

} // verus!
