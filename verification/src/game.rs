use vstd::prelude::*;
use vstd::string::*;

use crate::distance::within_distance;
use crate::distance::within_distance_exec;
use crate::utility::is_substring;
use crate::utility::str_contains;
use crate::utility::str_eq;
use crate::utility::vec_contains_str;
use crate::words::is_normal;
use crate::words::is_normal_exec;

verus! {

/// The ways a registry operation can fail. Failures of the durable store
/// itself (a write that did not complete, a missing record) happen at the
/// caller's I/O boundary, before these operations run.
#[derive(Clone, Copy, Debug, PartialEq, Eq, Structural)]
pub enum StoreError {
    /// The channel is already present in the registry.
    AlreadyExists,
    /// A durable record could not be read back as a well-formed channel.
    ParseError,
    /// The channel is not registered.
    UnknownChannel,
}

/// One registered game channel: its identifier, the participants in turn
/// order, and the vocabulary accepted so far.
pub struct Channel {
    pub channel_id: String,
    pub users: Vec<String>,
    pub words: Vec<String>,
}

/// The mathematical value of a channel: identifier, participant sequence
/// and vocabulary, each as character sequences.
#[verifier::ext_equal]
pub struct ChannelView {
    pub channel_id: Seq<char>,
    pub users: Seq<Seq<char>>,
    pub words: Seq<Seq<char>>,
}

impl View for Channel {
    type V = ChannelView;

    open spec fn view(&self) -> ChannelView {
        ChannelView {
            channel_id: self.channel_id@,
            users: self.users.deep_view(),
            words: self.words.deep_view(),
        }
    }
}

/// A freshly registered channel: no participants, no vocabulary.
pub open spec fn empty_channel(id: Seq<char>) -> ChannelView {
    ChannelView { channel_id: id, users: Seq::empty(), words: Seq::empty() }
}

/// Every stored word is a canonical key and appears only once.
pub open spec fn channel_wf(c: ChannelView) -> bool {
    &&& forall|i: int| 0 <= i < c.words.len() ==> is_normal(#[trigger] c.words[i])
    &&& forall|i: int, j: int|
        #![trigger c.words[i], c.words[j]]
        0 <= i < j < c.words.len() ==> c.words[i] != c.words[j]
}

impl Channel {
    /// A fresh, empty channel record for the given identifier.
    pub fn new(channel_id: &str) -> (c: Channel)
        ensures
            c@ == empty_channel(channel_id@),
            channel_wf(c@),
    {
        let c = Channel {
            channel_id: String::from_str(channel_id),
            users: Vec::new(),
            words: Vec::new(),
        };
        proof {
            assert(c@ =~= empty_channel(channel_id@));
        }
        c
    }
}

spec fn has_channel(s: Seq<Channel>, id: Seq<char>) -> bool {
    exists|i: int| 0 <= i < s.len() && #[trigger] s[i].channel_id@ == id
}

spec fn idx_of(s: Seq<Channel>, id: Seq<char>) -> int {
    choose|i: int| 0 <= i < s.len() && #[trigger] s[i].channel_id@ == id
}

spec fn seq_view(s: Seq<Channel>) -> Map<Seq<char>, ChannelView> {
    Map::new(|id: Seq<char>| has_channel(s, id), |id: Seq<char>| s[idx_of(s, id)]@)
}

spec fn ids_unique(s: Seq<Channel>) -> bool {
    forall|i: int, j: int|
        #![trigger s[i], s[j]]
        0 <= i < j < s.len() ==> s[i].channel_id@ != s[j].channel_id@
}

proof fn lemma_idx_of(s: Seq<Channel>, id: Seq<char>)
    requires
        ids_unique(s),
        has_channel(s, id),
    ensures
        0 <= idx_of(s, id) < s.len(),
        s[idx_of(s, id)].channel_id@ == id,
        forall|j: int| 0 <= j < s.len() && #[trigger] s[j].channel_id@ == id ==> j == idx_of(
            s,
            id,
        ),
{
    let i = idx_of(s, id);
    assert(0 <= i < s.len() && s[i].channel_id@ == id);
    assert forall|j: int| 0 <= j < s.len() && #[trigger] s[j].channel_id@ == id implies j == i by {
        if j < i {
            assert(s[j].channel_id@ != s[i].channel_id@);
        } else if i < j {
            assert(s[i].channel_id@ != s[j].channel_id@);
        }
    }
}

proof fn lemma_push_view(s: Seq<Channel>, c: Channel)
    requires
        ids_unique(s),
        !has_channel(s, c.channel_id@),
    ensures
        ids_unique(s.push(c)),
        seq_view(s.push(c)) =~= seq_view(s).insert(c.channel_id@, c@),
{
    let t = s.push(c);
    assert forall|i: int, j: int|
        #![trigger t[i], t[j]]
        0 <= i < j < t.len() implies t[i].channel_id@ != t[j].channel_id@ by {
        if j < s.len() {
            assert(t[i] == s[i] && t[j] == s[j]);
        } else {
            assert(t[i] == s[i] && t[j] == c);
        }
    }
    let m1 = seq_view(t);
    let m2 = seq_view(s).insert(c.channel_id@, c@);
    assert forall|id: Seq<char>| #[trigger] m1.dom().contains(id) implies m2.dom().contains(id)
        by {
        let i = choose|i: int| 0 <= i < t.len() && #[trigger] t[i].channel_id@ == id;
        if i < s.len() {
            assert(s[i].channel_id@ == id);
        }
    }
    assert forall|id: Seq<char>| #[trigger] m2.dom().contains(id) implies m1.dom().contains(id)
        by {
        if id == c.channel_id@ {
            assert(t[s.len() as int].channel_id@ == id);
        } else {
            let i = choose|i: int| 0 <= i < s.len() && #[trigger] s[i].channel_id@ == id;
            assert(t[i].channel_id@ == id);
        }
    }
    assert forall|id: Seq<char>| #[trigger] m1.dom().contains(id) implies m1[id] == m2[id] by {
        lemma_idx_of(t, id);
        if id == c.channel_id@ {
            assert(t[s.len() as int].channel_id@ == id);
            assert(idx_of(t, id) == s.len());
        } else {
            let i = idx_of(t, id);
            assert(i < s.len());
            assert(s[i].channel_id@ == id);
            lemma_idx_of(s, id);
            assert(idx_of(s, id) == i);
            assert(t[i] == s[i]);
        }
    }
    assert(m1 =~= m2);
}

proof fn lemma_update_view(s: Seq<Channel>, i: int, c: Channel)
    requires
        ids_unique(s),
        0 <= i < s.len(),
        c.channel_id@ == s[i].channel_id@,
    ensures
        ids_unique(s.update(i, c)),
        seq_view(s.update(i, c)) =~= seq_view(s).insert(c.channel_id@, c@),
{
    let t = s.update(i, c);
    assert forall|p: int, q: int|
        #![trigger t[p], t[q]]
        0 <= p < q < t.len() implies t[p].channel_id@ != t[q].channel_id@ by {
        assert(t[p].channel_id@ == s[p].channel_id@);
        assert(t[q].channel_id@ == s[q].channel_id@);
    }
    let m1 = seq_view(t);
    let m2 = seq_view(s).insert(c.channel_id@, c@);
    assert forall|id: Seq<char>| #[trigger] m1.dom().contains(id) implies m2.dom().contains(id)
        by {
        let p = choose|p: int| 0 <= p < t.len() && #[trigger] t[p].channel_id@ == id;
        assert(s[p].channel_id@ == id);
    }
    assert forall|id: Seq<char>| #[trigger] m2.dom().contains(id) implies m1.dom().contains(id)
        by {
        if id == c.channel_id@ {
            assert(t[i].channel_id@ == id);
        } else {
            let p = choose|p: int| 0 <= p < s.len() && #[trigger] s[p].channel_id@ == id;
            assert(t[p].channel_id@ == id);
        }
    }
    assert forall|id: Seq<char>| #[trigger] m1.dom().contains(id) implies m1[id] == m2[id] by {
        lemma_idx_of(t, id);
        lemma_idx_of(s, id);
        if id == c.channel_id@ {
            assert(t[i].channel_id@ == id);
            assert(idx_of(t, id) == i);
        } else {
            let p = idx_of(t, id);
            assert(t[p].channel_id@ == id);
            assert(p != i);
            assert(s[p].channel_id@ == id);
            assert(idx_of(s, id) == p);
            assert(t[p] == s[p]);
        }
    }
    assert(m1 =~= m2);
}

/// One of the two words is a contiguous substring of the other.
pub open spec fn is_piece_match(w: Seq<char>, word: Seq<char>) -> bool {
    is_substring(w, word) || is_substring(word, w)
}

/// The stored words that are piece matches for the candidate, in stored
/// order.
pub open spec fn piece_matches(words: Seq<Seq<char>>, word: Seq<char>) -> Seq<Seq<char>>
    decreases words.len(),
{
    if words.len() == 0 {
        Seq::empty()
    } else {
        let rest = piece_matches(words.drop_last(), word);
        if is_piece_match(words.last(), word) {
            rest.push(words.last())
        } else {
            rest
        }
    }
}

/// The stored words within the distance threshold of the candidate, in
/// stored order.
pub open spec fn distance_matches(
    words: Seq<Seq<char>>,
    word: Seq<char>,
    threshold_milli: u32,
) -> Seq<Seq<char>>
    decreases words.len(),
{
    if words.len() == 0 {
        Seq::empty()
    } else {
        let rest = distance_matches(words.drop_last(), word, threshold_milli);
        if within_distance(words.last(), word, threshold_milli) {
            rest.push(words.last())
        } else {
            rest
        }
    }
}

/// The channel's state after admitting a word: unchanged when the word is
/// already present (the vocabulary is a set), otherwise with the word
/// appended.
pub open spec fn with_word(c: ChannelView, w: Seq<char>) -> ChannelView {
    if c.words.contains(w) {
        c
    } else {
        ChannelView { words: c.words.push(w), ..c }
    }
}

fn words_all_normal(v: &Vec<String>) -> (r: bool)
    ensures
        r == (forall|i: int|
            0 <= i < v.deep_view().len() ==> is_normal(#[trigger] v.deep_view()[i])),
{
    let n = v.len();
    let mut i: usize = 0;
    while i < n
        invariant
            i <= n,
            n == v@.len(),
            v.deep_view().len() == v@.len(),
            forall|j: int| 0 <= j < i ==> is_normal(#[trigger] v.deep_view()[j]),
        decreases n - i,
    {
        proof {
            assert(v.deep_view()[i as int] == v@[i as int]@);
        }
        if !is_normal_exec(v[i].as_str()) {
            return false;
        }
        i = i + 1;
    }
    true
}

fn words_distinct(v: &Vec<String>) -> (r: bool)
    ensures
        r == (forall|i: int, j: int|
            #![trigger v.deep_view()[i], v.deep_view()[j]]
            0 <= i < j < v.deep_view().len() ==> v.deep_view()[i] != v.deep_view()[j]),
{
    let n = v.len();
    let mut i: usize = 0;
    while i < n
        invariant
            i <= n,
            n == v@.len(),
            v.deep_view().len() == v@.len(),
            forall|p: int, q: int|
                #![trigger v.deep_view()[p], v.deep_view()[q]]
                0 <= p < q < n && p < i ==> v.deep_view()[p] != v.deep_view()[q],
        decreases n - i,
    {
        let mut j: usize = i + 1;
        while j < n
            invariant
                i < j <= n,
                n == v@.len(),
                v.deep_view().len() == v@.len(),
                forall|q: int| i < q < j ==> v.deep_view()[i as int] != #[trigger] v.deep_view()[q],
            decreases n - j,
        {
            proof {
                assert(v.deep_view()[i as int] == v@[i as int]@);
                assert(v.deep_view()[j as int] == v@[j as int]@);
            }
            if str_eq(v[i].as_str(), v[j].as_str()) {
                return false;
            }
            j = j + 1;
        }
        i = i + 1;
    }
    true
}

/// The registry of game channels, keyed by channel identifier; its value
/// is the map from each registered identifier to that channel's state.
pub struct ChannelStore {
    channels: Vec<Channel>,
}

impl View for ChannelStore {
    type V = Map<Seq<char>, ChannelView>;

    closed spec fn view(&self) -> Map<Seq<char>, ChannelView> {
        seq_view(self.channels@)
    }
}

impl ChannelStore {
    /// Registry well-formedness: identifiers are unique and every
    /// channel's vocabulary is well-formed.
    pub closed spec fn inv(&self) -> bool {
        &&& ids_unique(self.channels@)
        &&& forall|i: int|
            0 <= i < self.channels@.len() ==> channel_wf(#[trigger] self.channels@[i]@)
    }

    /// Every registered channel's stored words are canonical keys, each
    /// appearing once: the registry invariant, as seen through its value.
    pub proof fn lemma_inv_channels_wf(&self)
        requires
            self.inv(),
        ensures
            forall|id: Seq<char>| #[trigger] self@.dom().contains(id) ==> channel_wf(self@[id]),
    {
        assert forall|id: Seq<char>| #[trigger] self@.dom().contains(id) implies channel_wf(
            self@[id],
        ) by {
            lemma_idx_of(self.channels@, id);
        }
    }

    /// An empty registry.
    pub fn new() -> (r: ChannelStore)
        ensures
            r.inv(),
            r@ == Map::<Seq<char>, ChannelView>::empty(),
    {
        let r = ChannelStore { channels: Vec::new() };
        proof {
            assert(r@ =~= Map::<Seq<char>, ChannelView>::empty());
        }
        r
    }

    fn find_index(&self, channel_id: &str) -> (r: Option<usize>)
        ensures
            match r {
                Some(i) => i < self.channels@.len() && self.channels@[i as int].channel_id@
                    == channel_id@,
                None => !has_channel(self.channels@, channel_id@),
            },
    {
        let n = self.channels.len();
        let mut i: usize = 0;
        while i < n
            invariant
                i <= n,
                n == self.channels@.len(),
                forall|j: int| 0 <= j < i ==> #[trigger] self.channels@[j].channel_id@
                    != channel_id@,
            decreases n - i,
        {
            if str_eq(self.channels[i].channel_id.as_str(), channel_id) {
                return Some(i);
            }
            i = i + 1;
        }
        None
    }

    /// Pure lookup: whether the channel is registered.
    pub fn channel_exists(&self, channel_id: &str) -> (r: bool)
        ensures
            r == self@.dom().contains(channel_id@),
    {
        match self.find_index(channel_id) {
            Some(i) => {
                proof {
                    assert(has_channel(self.channels@, channel_id@)) by {
                        assert(self.channels@[i as int].channel_id@ == channel_id@);
                    }
                }
                true
            },
            None => false,
        }
    }

    /// Inserts a fresh, empty channel record for the identifier; fails if
    /// the channel is already registered. The caller persists the fresh
    /// record durably before calling, so that success is only ever
    /// acknowledged for a persisted channel.
    pub fn register(&mut self, channel_id: &str) -> (r: Result<(), StoreError>)
        requires
            old(self).inv(),
        ensures
            final(self).inv(),
            match r {
                Ok(()) => !old(self)@.dom().contains(channel_id@) && final(self)@ == old(
                    self,
                )@.insert(channel_id@, empty_channel(channel_id@)),
                Err(e) => e == StoreError::AlreadyExists && old(self)@.dom().contains(channel_id@)
                    && final(self)@ == old(self)@,
            },
    {
        match self.find_index(channel_id) {
            Some(i) => {
                proof {
                    assert(has_channel(self.channels@, channel_id@)) by {
                        assert(self.channels@[i as int].channel_id@ == channel_id@);
                    }
                }
                Err(StoreError::AlreadyExists)
            },
            None => {
                let record = Channel::new(channel_id);
                proof {
                    lemma_push_view(self.channels@, record);
                }
                self.channels.push(record);
                Ok(())
            },
        }
    }

    /// Exact membership of a word in a registered channel's vocabulary.
    pub fn contains_word(&self, channel_id: &str, word: &str) -> (r: bool)
        requires
            self.inv(),
            self@.dom().contains(channel_id@),
        ensures
            r == self@[channel_id@].words.contains(word@),
    {
        match self.find_index(channel_id) {
            Some(i) => {
                proof {
                    assert(has_channel(self.channels@, channel_id@)) by {
                        assert(self.channels@[i as int].channel_id@ == channel_id@);
                    }
                    lemma_idx_of(self.channels@, channel_id@);
                    assert(idx_of(self.channels@, channel_id@) == i as int);
                }
                vec_contains_str(&self.channels[i].words, word)
            },
            None => {
                proof {
                    assert(false);
                }
                false
            },
        }
    }

    /// Inserts an already-normalized word into a channel's vocabulary; a
    /// word already present is left alone (set semantics). Fails only when
    /// the channel is not registered.
    pub fn admit_word(&mut self, channel_id: &str, word: &str) -> (r: Result<(), StoreError>)
        requires
            old(self).inv(),
            is_normal(word@),
        ensures
            final(self).inv(),
            match r {
                Ok(()) => old(self)@.dom().contains(channel_id@) && final(self)@ == old(
                    self,
                )@.insert(channel_id@, with_word(old(self)@[channel_id@], word@)),
                Err(e) => e == StoreError::UnknownChannel && !old(self)@.dom().contains(channel_id@)
                    && final(self)@ == old(self)@,
            },
    {
        let idx = match self.find_index(channel_id) {
            Some(i) => i,
            None => {
                return Err(StoreError::UnknownChannel);
            },
        };
        proof {
            assert(has_channel(self.channels@, channel_id@)) by {
                assert(self.channels@[idx as int].channel_id@ == channel_id@);
            }
            lemma_idx_of(self.channels@, channel_id@);
            assert(idx_of(self.channels@, channel_id@) == idx as int);
            assert(self@[channel_id@] == self.channels@[idx as int]@);
        }
        let ghost old_view = self@[channel_id@];
        let mut ch = self.channels.remove(idx);
        if vec_contains_str(&ch.words, word) {
            self.channels.insert(idx, ch);
            proof {
                assert(self.channels@ =~= old(self).channels@);
                assert(with_word(old_view, word@) == old_view);
                assert(old(self)@.insert(channel_id@, old_view) =~= old(self)@);
            }
            return Ok(());
        }
        ch.words.push(String::from_str(word));
        proof {
            assert(ch@.words =~= old_view.words.push(word@));
            assert(ch@ =~= with_word(old_view, word@));
            assert(channel_wf(ch@)) by {
                assert(forall|j: int|
                    0 <= j < old_view.words.len() ==> #[trigger] old_view.words[j] != word@);
            }
            assert(self.channels@ =~= old(self).channels@.remove(idx as int));
        }
        self.channels.insert(idx, ch);
        proof {
            assert(self.channels@ =~= old(self).channels@.update(idx as int, ch));
            lemma_update_view(old(self).channels@, idx as int, ch);
        }
        Ok(())
    }

    /// Installs a channel record recovered from durable storage,
    /// overwriting any in-memory entry for the same identifier. A record
    /// whose vocabulary is not made of unique canonical keys is rejected
    /// as unparseable and nothing changes.
    pub fn load_channel(&mut self, record: Channel) -> (r: Result<(), StoreError>)
        requires
            old(self).inv(),
        ensures
            final(self).inv(),
            match r {
                Ok(()) => channel_wf(record@) && final(self)@ == old(self)@.insert(
                    record@.channel_id,
                    record@,
                ),
                Err(e) => e == StoreError::ParseError && !channel_wf(record@) && final(self)@
                    == old(self)@,
            },
    {
        let all_normal = words_all_normal(&record.words);
        let distinct = words_distinct(&record.words);
        if !all_normal || !distinct {
            proof {
                let ws = record.words.deep_view();
                assert(record@.words == ws);
                if !all_normal {
                    let i = choose|i: int| 0 <= i < ws.len() && !is_normal(#[trigger] ws[i]);
                    assert(record@.words[i] == ws[i]);
                } else {
                    let (i, j): (int, int) = choose|i: int, j: int|
                        0 <= i < j < ws.len() && #[trigger] ws[i] == #[trigger] ws[j];
                    assert(record@.words[i] == ws[i]);
                    assert(record@.words[j] == ws[j]);
                }
                assert(!channel_wf(record@));
            }
            return Err(StoreError::ParseError);
        }
        let ghost rec_view = record@;
        match self.find_index(record.channel_id.as_str()) {
            Some(i) => {
                proof {
                    lemma_update_view(self.channels@, i as int, record);
                }
                let _previous = self.channels.remove(i);
                self.channels.insert(i, record);
                proof {
                    assert(self.channels@ =~= old(self).channels@.update(i as int, record));
                }
            },
            None => {
                proof {
                    lemma_push_view(self.channels@, record);
                }
                self.channels.push(record);
            },
        }
        Ok(())
    }

    /// Every stored word of the channel that contains the candidate or is
    /// contained in it, in stored order; `None` when the channel is
    /// unknown or there are no such words.
    pub fn find_piece_equals(&self, channel_id: &str, word: &str) -> (r: Option<Vec<String>>)
        requires
            self.inv(),
        ensures
            ({
                let matches = if self@.dom().contains(channel_id@) {
                    piece_matches(self@[channel_id@].words, word@)
                } else {
                    Seq::empty()
                };
                match r {
                    Some(v) => v.deep_view() == matches && matches.len() > 0,
                    None => matches.len() == 0,
                }
            }),
    {
        let i = match self.find_index(channel_id) {
            Some(i) => i,
            None => {
                return None;
            },
        };
        proof {
            assert(has_channel(self.channels@, channel_id@)) by {
                assert(self.channels@[i as int].channel_id@ == channel_id@);
            }
            lemma_idx_of(self.channels@, channel_id@);
            assert(idx_of(self.channels@, channel_id@) == i as int);
        }
        let words = &self.channels[i].words;
        let ghost ws = words.deep_view();
        let n = words.len();
        let mut v: Vec<String> = Vec::new();
        let mut k: usize = 0;
        while k < n
            invariant
                k <= n,
                n == words@.len(),
                ws == words.deep_view(),
                ws.len() == n,
                v.deep_view() =~= piece_matches(ws.take(k as int), word@),
            decreases n - k,
        {
            proof {
                assert(ws.take(k as int + 1).drop_last() =~= ws.take(k as int));
                assert(ws.take(k as int + 1).last() == ws[k as int]);
                assert(ws[k as int] == words@[k as int]@);
            }
            let w = &words[k];
            if str_contains(word, w.as_str()) || str_contains(w.as_str(), word) {
                let ghost prev = v.deep_view();
                v.push(w.clone());
                proof {
                    assert(v.deep_view() =~= prev.push(ws[k as int]));
                }
            }
            k = k + 1;
        }
        proof {
            assert(ws.take(n as int) =~= ws);
        }
        if v.len() > 0 {
            proof {
                assert(v.deep_view().len() == v@.len());
            }
            Some(v)
        } else {
            None
        }
    }

    /// Every stored word of the channel whose normalized edit distance to
    /// the candidate is within the threshold (in thousandths), in stored
    /// order; `None` when the channel is unknown or nothing is close.
    pub fn find_levenstein_distance(
        &self,
        channel_id: &str,
        word: &str,
        threshold_milli: u32,
    ) -> (r: Option<Vec<String>>)
        requires
            self.inv(),
        ensures
            ({
                let matches = if self@.dom().contains(channel_id@) {
                    distance_matches(self@[channel_id@].words, word@, threshold_milli)
                } else {
                    Seq::empty()
                };
                match r {
                    Some(v) => v.deep_view() == matches && matches.len() > 0,
                    None => matches.len() == 0,
                }
            }),
    {
        let i = match self.find_index(channel_id) {
            Some(i) => i,
            None => {
                return None;
            },
        };
        proof {
            assert(has_channel(self.channels@, channel_id@)) by {
                assert(self.channels@[i as int].channel_id@ == channel_id@);
            }
            lemma_idx_of(self.channels@, channel_id@);
            assert(idx_of(self.channels@, channel_id@) == i as int);
        }
        let words = &self.channels[i].words;
        let ghost ws = words.deep_view();
        let n = words.len();
        let mut v: Vec<String> = Vec::new();
        let mut k: usize = 0;
        while k < n
            invariant
                k <= n,
                n == words@.len(),
                ws == words.deep_view(),
                ws.len() == n,
                v.deep_view() =~= distance_matches(ws.take(k as int), word@, threshold_milli),
            decreases n - k,
        {
            proof {
                assert(ws.take(k as int + 1).drop_last() =~= ws.take(k as int));
                assert(ws.take(k as int + 1).last() == ws[k as int]);
                assert(ws[k as int] == words@[k as int]@);
            }
            let w = &words[k];
            if within_distance_exec(w.as_str(), word, threshold_milli) {
                let ghost prev = v.deep_view();
                v.push(w.clone());
                proof {
                    assert(v.deep_view() =~= prev.push(ws[k as int]));
                }
            }
            k = k + 1;
        }
        proof {
            assert(ws.take(n as int) =~= ws);
        }
        if v.len() > 0 {
            proof {
                assert(v.deep_view().len() == v@.len());
            }
            Some(v)
        } else {
            None
        }
    }

    /// A copy of a registered channel's vocabulary, in admission order.
    pub fn get_words(&self, channel_id: &str) -> (r: Option<Vec<String>>)
        requires
            self.inv(),
        ensures
            match r {
                Some(v) => self@.dom().contains(channel_id@) && v.deep_view()
                    == self@[channel_id@].words,
                None => !self@.dom().contains(channel_id@),
            },
    {
        match self.find_index(channel_id) {
            Some(i) => {
                proof {
                    assert(has_channel(self.channels@, channel_id@)) by {
                        assert(self.channels@[i as int].channel_id@ == channel_id@);
                    }
                }
                let words = &self.channels[i].words;
                let n = words.len();
                let mut v: Vec<String> = Vec::new();
                let mut k: usize = 0;
                while k < n
                    invariant
                        k <= n,
                        n == words@.len(),
                        v.deep_view() =~= words.deep_view().take(k as int),
                    decreases n - k,
                {
                    v.push(words[k].clone());
                    proof {
                        assert(v.deep_view() =~= words.deep_view().take(k as int).push(
                            words.deep_view()[k as int],
                        ));
                        assert(words.deep_view().take(k as int + 1) =~= words.deep_view().take(
                            k as int,
                        ).push(words.deep_view()[k as int]));
                    }
                    k = k + 1;
                }
                proof {
                    assert(words.deep_view().take(n as int) =~= words.deep_view());
                    lemma_idx_of(self.channels@, channel_id@);
                    assert(idx_of(self.channels@, channel_id@) == i as int);
                }
                Some(v)
            },
            None => None,
        }
    }
}

} // verus!
