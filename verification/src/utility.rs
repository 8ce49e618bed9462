use vstd::prelude::*;
use vstd::string::*;

verus! {

/// The game parameters: the similarity threshold in thousandths of the
/// longer word's length, and the reaction quorum that resolves a vote.
pub struct GameConfig {
    pub dist_threshold_milli: u32,
    pub vote_count: u8,
}

impl GameConfig {
    /// The default parameters: a threshold of three tenths and a quorum
    /// of three reactions.
    pub fn new() -> (r: GameConfig)
        ensures
            r.dist_threshold_milli == 300,
            r.vote_count == 3,
    {
        GameConfig { dist_threshold_milli: 300, vote_count: 3 }
    }
}

/// Character-for-character string equality.
pub fn str_eq(a: &str, b: &str) -> (r: bool)
    ensures
        r == (a@ == b@),
{
    let n = a.unicode_len();
    if n != b.unicode_len() {
        return false;
    }
    let mut i: usize = 0;
    while i < n
        invariant
            i <= n,
            n == a@.len(),
            n == b@.len(),
            forall|j: int| 0 <= j < i ==> a@[j] == b@[j],
        decreases n - i,
    {
        if a.get_char(i) != b.get_char(i) {
            return false;
        }
        i = i + 1;
    }
    proof {
        assert(a@ =~= b@);
    }
    true
}

/// Whether `needle` occurs as a contiguous run of characters in `hay`.
pub open spec fn is_substring(needle: Seq<char>, hay: Seq<char>) -> bool {
    exists|k: int|
        0 <= k && k + needle.len() <= hay.len() && #[trigger] hay.subrange(k, k + needle.len())
            == needle
}

fn match_at(hay: &str, needle: &str, k: usize) -> (r: bool)
    requires
        k + needle@.len() <= hay@.len(),
        hay@.len() <= usize::MAX,
    ensures
        r == (hay@.subrange(k as int, k as int + needle@.len() as int) == needle@),
{
    let m = needle.unicode_len();
    let ghost sub = hay@.subrange(k as int, k as int + m as int);
    let mut j: usize = 0;
    while j < m
        invariant
            j <= m,
            m == needle@.len(),
            k + m <= hay@.len(),
            hay@.len() <= usize::MAX,
            sub == hay@.subrange(k as int, k as int + m as int),
            forall|q: int| 0 <= q < j ==> hay@[k + q] == needle@[q],
        decreases m - j,
    {
        if hay.get_char(k + j) != needle.get_char(j) {
            proof {
                assert(sub[j as int] == hay@[k + j]);
            }
            return false;
        }
        j = j + 1;
    }
    proof {
        assert(sub =~= needle@);
    }
    true
}

/// Decides substring containment of `needle` in `hay`.
pub fn str_contains(hay: &str, needle: &str) -> (r: bool)
    ensures
        r == is_substring(needle@, hay@),
{
    let n = hay.unicode_len();
    let m = needle.unicode_len();
    if m > n {
        return false;
    }
    if m == 0 {
        proof {
            assert(is_substring(needle@, hay@)) by {
                assert(hay@.subrange(0, 0 + needle@.len() as int) =~= needle@);
            }
        }
        return true;
    }
    let mut k: usize = 0;
    while k <= n - m
        invariant
            1 <= m <= n,
            n == hay@.len(),
            m == needle@.len(),
            k <= n - m + 1,
            forall|p: int| 0 <= p < k ==> #[trigger] hay@.subrange(p, p + m as int) != needle@,
        decreases n - k,
    {
        if match_at(hay, needle, k) {
            return true;
        }
        k = k + 1;
    }
    false
}

/// Whether any element of the vector equals the string.
pub(crate) fn vec_contains_str(v: &Vec<String>, w: &str) -> (r: bool)
    ensures
        r == v.deep_view().contains(w@),
{
    let n = v.len();
    let mut i: usize = 0;
    while i < n
        invariant
            i <= n,
            n == v@.len(),
            v.deep_view().len() == v@.len(),
            forall|j: int| 0 <= j < i ==> #[trigger] v.deep_view()[j] != w@,
        decreases n - i,
    {
        if str_eq(v[i].as_str(), w) {
            proof {
                assert(v.deep_view()[i as int] == w@);
            }
            return true;
        }
        proof {
            assert(v.deep_view()[i as int] == v@[i as int]@);
        }
        i = i + 1;
    }
    false
}

/// Builds the JSON body of a plain chat message: the given text under
/// `content`, with text-to-speech disabled.
pub fn generate_basic_message(message: &str) -> (r: String)
    ensures
        r@ == "{\"content\":\""@ + message@ + "\", \"tts\": false}"@,
{
    let mut out = String::from_str("{\"content\":\"");
    out.append(message);
    out.append("\", \"tts\": false}");
    out
}

} // verus!
