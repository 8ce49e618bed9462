use vstd::prelude::*;
use vstd::string::*;

use crate::game::ChannelStore;
use crate::game::ChannelView;
use crate::game::distance_matches;
use crate::game::piece_matches;
use crate::game::with_word;
use crate::utility::str_eq;
use crate::utility::vec_contains_str;
use crate::vote::VoteTracker;
use crate::words::canon;
use crate::words::is_word_char;
use crate::words::is_word_char_exec;
use crate::words::lemma_canon_normal;
use crate::words::normalize;
use crate::words::valid_token;

verus! {

/// What the mention check decides for one inbound message.
#[derive(Clone, Copy, Debug, PartialEq, Eq, Structural)]
pub enum MentionAction {
    /// No mention of the bot: fall through to ordinary word handling.
    Through,
    /// Mentioned in a channel that is already registered: reply so.
    ReplyAlreadyRegistered,
    /// Mentioned in an unregistered channel: attempt registration and
    /// reply with the outcome.
    AttemptRegister,
}

/// Whether any mentioned username is the bot's own name.
pub open spec fn mentions_bot(mentions: Seq<Seq<char>>) -> bool {
    mentions.contains("NS Shiritori"@)
}

/// The mention check that runs before any other handling of a message: a
/// message that mentions the bot by name is consumed entirely, and the
/// reply depends only on whether the channel is registered; any other
/// message falls through to ordinary word handling.
pub fn check_mention_for_me(mentions: &Vec<String>, registered: bool) -> (r: MentionAction)
    ensures
        r == (if !mentions_bot(mentions.deep_view()) {
            MentionAction::Through
        } else if registered {
            MentionAction::ReplyAlreadyRegistered
        } else {
            MentionAction::AttemptRegister
        }),
{
    if vec_contains_str(mentions, "NS Shiritori") {
        if registered {
            MentionAction::ReplyAlreadyRegistered
        } else {
            MentionAction::AttemptRegister
        }
    } else {
        MentionAction::Through
    }
}

/// The reply posted after a registration attempt.
pub fn registration_reply(ok: bool) -> (r: String)
    ensures
        ok ==> r@ == "チャンネルの登録が完了しました。"@,
        !ok ==> r@ == "登録が失敗しました。"@,
{
    if ok {
        String::from_str("チャンネルの登録が完了しました。")
    } else {
        String::from_str("登録が失敗しました。")
    }
}

/// The reply posted when the mentioning channel is already registered.
pub fn already_registered_reply() -> (r: String)
    ensures
        r@ == "このチャンネルは既に登録されています。"@,
{
    String::from_str("このチャンネルは既に登録されています。")
}

fn suffixed(word: &str, suffix: &str) -> (r: String)
    ensures
        r@ == word@ + suffix@,
{
    let mut out = String::from_str(word);
    out.append(suffix);
    out
}

/// The plan for one accepted candidate word: the canonical word and the
/// initial status message of each of the four concurrent checks, each of
/// which is posted and later edited in place with that check's result.
pub struct CheckPlan {
    pub word: String,
    pub exist_probe: String,
    pub dict_probe: String,
    pub like_probe: String,
    pub vote_announcement: String,
}

/// Validates and canonicalizes an inbound message's content; on
/// acceptance yields the plan of the four concurrent checks (duplicate
/// check, dictionary check, similarity check, admission vote). Rejected
/// content yields `None` and the message is silently ignored.
pub fn check_word(content: &str) -> (r: Option<CheckPlan>)
    ensures
        match r {
            Some(plan) => {
                &&& valid_token(content@)
                &&& plan.word@ == canon(content@)
                &&& plan.exist_probe@ == canon(content@) + " を検索中..."@
                &&& plan.dict_probe@ == canon(content@) + " を dictionary api で検索中..."@
                &&& plan.like_probe@ == canon(content@) + " を使用単語から検索中..."@
                &&& plan.vote_announcement@ == "「"@ + canon(content@) + "」 の有効投票を開始します。"@
            },
            None => !valid_token(content@),
        },
{
    let word = match normalize(content) {
        Some(w) => w,
        None => {
            return None;
        },
    };
    let exist_probe = suffixed(word.as_str(), " を検索中...");
    let dict_probe = suffixed(word.as_str(), " を dictionary api で検索中...");
    let like_probe = suffixed(word.as_str(), " を使用単語から検索中...");
    let mut vote_announcement = String::from_str("「");
    vote_announcement.append(word.as_str());
    vote_announcement.append("」 の有効投票を開始します。");
    Some(CheckPlan { word, exist_probe, dict_probe, like_probe, vote_announcement })
}

/// The edited result of the exact-duplicate check.
pub fn exists_word_reply(word: &str, contains: bool) -> (r: String)
    ensures
        contains ==> r@ == word@ + " は既に使用されています。"@,
        !contains ==> r@ == word@ + " と完全一致する単語は使用されていません。"@,
{
    if contains {
        suffixed(word, " は既に使用されています。")
    } else {
        suffixed(word, " と完全一致する単語は使用されていません。")
    }
}

/// The edited result of the dictionary check.
pub fn dictionary_reply(word: &str, found: bool) -> (r: String)
    ensures
        found ==> r@ == word@ + " が dictionary api で見つかりました。"@,
        !found ==> r@ == word@ + " は dictionary apiでは見つかりませんでした。"@,
{
    if found {
        suffixed(word, " が dictionary api で見つかりました。")
    } else {
        suffixed(word, " は dictionary apiでは見つかりませんでした。")
    }
}

/// The dictionary collaborator's verdict from the raw response body: a
/// body beginning with `[` means the word is recognized; anything else,
/// including a failed transport read, means it is not.
pub fn dictionary_recognizes(body: &str) -> (r: bool)
    ensures
        r == (body@.len() > 0 && body@[0] == '['),
{
    if body.unicode_len() == 0 {
        false
    } else {
        body.get_char(0) == '['
    }
}

/// The suggestion lists joined by newlines, one suggestion per line.
pub open spec fn joined_lines(ws: Seq<Seq<char>>) -> Seq<char>
    decreases ws.len(),
{
    if ws.len() == 0 {
        Seq::empty()
    } else if ws.len() == 1 {
        ws[0]
    } else {
        joined_lines(ws.drop_last()) + "\n"@ + ws.last()
    }
}

fn join_lines(ws: &Vec<String>) -> (r: String)
    ensures
        r@ == joined_lines(ws.deep_view()),
{
    let ghost wd = ws.deep_view();
    let n = ws.len();
    let mut out = String::new();
    let mut i: usize = 0;
    while i < n
        invariant
            i <= n,
            n == ws@.len(),
            wd == ws.deep_view(),
            wd.len() == n,
            out@ == joined_lines(wd.take(i as int)),
        decreases n - i,
    {
        proof {
            assert(wd.take(i as int + 1).drop_last() =~= wd.take(i as int));
            assert(wd.take(i as int + 1).last() == wd[i as int]);
            assert(wd[i as int] == ws@[i as int]@);
        }
        if i > 0 {
            out.append("\n");
        }
        out.append(ws[i].as_str());
        i = i + 1;
    }
    proof {
        assert(wd.take(n as int) =~= wd);
    }
    out
}

/// Every similarity suggestion for a candidate: the containment matches
/// followed by the distance matches; a stored word close in both ways
/// appears twice, and an unknown channel has no suggestions.
pub open spec fn similar_matches(
    m: Map<Seq<char>, crate::game::ChannelView>,
    id: Seq<char>,
    word: Seq<char>,
    threshold_milli: u32,
) -> Seq<Seq<char>> {
    if m.dom().contains(id) {
        piece_matches(m[id].words, word) + distance_matches(m[id].words, word, threshold_milli)
    } else {
        Seq::empty()
    }
}

/// Gathers both similarity queries for one candidate word, in the order
/// they are displayed.
pub fn find_similar(
    store: &ChannelStore,
    channel_id: &str,
    word: &str,
    threshold_milli: u32,
) -> (r: Vec<String>)
    requires
        store.inv(),
    ensures
        r.deep_view() == similar_matches(store@, channel_id@, word@, threshold_milli),
{
    let mut result: Vec<String> = match store.find_piece_equals(channel_id, word) {
        Some(v) => v,
        None => Vec::new(),
    };
    let ghost first = result.deep_view();
    match store.find_levenstein_distance(channel_id, word, threshold_milli) {
        Some(mut v) => {
            let ghost second = v.deep_view();
            result.append(&mut v);
            proof {
                assert(result.deep_view() =~= first + second);
                assert(result.deep_view() =~= similar_matches(
                    store@,
                    channel_id@,
                    word@,
                    threshold_milli,
                ));
            }
        },
        None => {
            proof {
                assert(result.deep_view() =~= similar_matches(
                    store@,
                    channel_id@,
                    word@,
                    threshold_milli,
                ));
            }
        },
    }
    result
}

/// One reaction tally on a fetched message: the emoji's name and how many
/// users have added it.
pub struct Reaction {
    pub emoji_name: String,
    pub count: u8,
}

/// The mathematical value of one reaction tally.
#[verifier::ext_equal]
pub struct ReactionView {
    pub emoji_name: Seq<char>,
    pub count: u8,
}

impl View for Reaction {
    type V = ReactionView;

    open spec fn view(&self) -> ReactionView {
        ReactionView { emoji_name: self.emoji_name@, count: self.count }
    }
}

impl DeepView for Reaction {
    type V = ReactionView;

    open spec fn deep_view(&self) -> ReactionView {
        self@
    }
}

/// The first reaction entry carrying the given emoji, if any.
pub open spec fn found_reaction(rs: Seq<ReactionView>, emoji: Seq<char>) -> Option<ReactionView>
    decreases rs.len(),
{
    if rs.len() == 0 {
        None
    } else if rs[0].emoji_name == emoji {
        Some(rs[0])
    } else {
        found_reaction(rs.drop_first(), emoji)
    }
}

/// Finds the tally of the first reaction entry carrying the given emoji.
pub fn find_reaction_count(reactions: &Vec<Reaction>, emoji: &str) -> (r: Option<u8>)
    ensures
        match found_reaction(reactions.deep_view(), emoji@) {
            Some(rx) => r == Some(rx.count),
            None => r is None,
        },
{
    let ghost rd = reactions.deep_view();
    let n = reactions.len();
    proof {
        assert(rd.skip(0) =~= rd);
    }
    let mut i: usize = 0;
    while i < n
        invariant
            i <= n,
            n == reactions@.len(),
            rd == reactions.deep_view(),
            rd.len() == n,
            found_reaction(rd, emoji@) == found_reaction(rd.skip(i as int), emoji@),
        decreases n - i,
    {
        proof {
            assert(rd.skip(i as int)[0] == rd[i as int]);
            assert(rd[i as int] == reactions@[i as int]@);
            assert(rd.skip(i as int).drop_first() =~= rd.skip(i as int + 1));
        }
        if str_eq(reactions[i].emoji_name.as_str(), emoji) {
            return Some(reactions[i].count);
        }
        i = i + 1;
    }
    None
}

/// The two reaction options attached to every vote message.
pub open spec fn is_vote_emoji(e: Seq<char>) -> bool {
    e == "👍"@ || e == "👎"@
}

/// The approve reaction option.
pub fn valid_vote() -> (r: &'static str)
    ensures
        r@ == "👍"@,
{
    "👍"
}

/// The reject reaction option.
pub fn invalid_vote() -> (r: &'static str)
    ensures
        r@ == "👎"@,
{
    "👎"
}

/// The index just past the run of word characters that starts at `i`.
pub open spec fn run_end(s: Seq<char>, i: int) -> int
    decreases s.len() - i,
{
    if i < s.len() && is_word_char(s[i]) {
        run_end(s, i + 1)
    } else {
        i
    }
}

/// The raw token a vote message's text carries: the text begins with `「`,
/// then a valid token, then `」`; anything may follow.
pub open spec fn vote_word_of(s: Seq<char>) -> Option<Seq<char>> {
    if s.len() >= 1 && s[0] == '「' {
        let e = run_end(s, 1);
        let token = s.subrange(1, e);
        if valid_token(token) && e < s.len() && s[e] == '」' {
            Some(token)
        } else {
            None
        }
    } else {
        None
    }
}

/// The candidate word carried by a vote message's text, as its canonical
/// key; `None` when the text does not carry a valid token.
pub fn extract_vote_word(content: &str) -> (r: Option<String>)
    ensures
        match r {
            Some(w) => vote_word_of(content@) is Some && w@ == canon(vote_word_of(content@)->0),
            None => vote_word_of(content@) is None,
        },
{
    let n = content.unicode_len();
    if n == 0 {
        return None;
    }
    if content.get_char(0) != '「' {
        return None;
    }
    let mut e: usize = 1;
    while e < n && is_word_char_exec(content.get_char(e))
        invariant
            1 <= e <= n,
            n == content@.len(),
            run_end(content@, 1) == run_end(content@, e as int),
        decreases n - e,
    {
        proof {
            assert(run_end(content@, e as int) == run_end(content@, e as int + 1));
        }
        e = e + 1;
    }
    proof {
        assert(run_end(content@, e as int) == e as int);
    }
    if e >= n {
        return None;
    }
    if content.get_char(e) != '」' {
        return None;
    }
    let token = content.substring_char(1, e);
    match normalize(token) {
        Some(w) => Some(w),
        None => None,
    }
}

/// What the caller must do after one reaction event has been examined.
pub enum VoteUpdate {
    /// Not a vote emoji, no active vote, no matching tally, or quorum not
    /// reached: nothing changed and nothing is to be sent.
    Ignored,
    /// Quorum reached and the vote resolved: the caller clears the
    /// reactions and edits the vote message to `reply`; `admitted` is the
    /// word that entered the channel's vocabulary, present only on
    /// approval.
    Resolved { approved: bool, reply: String, admitted: Option<String> },
}

/// Whether the examined reaction event resolves the vote: the emoji is a
/// vote option, the vote is still in flight, and that emoji's tally on
/// the re-fetched message has reached the threshold.
pub open spec fn vote_fires(
    active: Set<Seq<char>>,
    message_id: Seq<char>,
    emoji: Seq<char>,
    rs: Seq<ReactionView>,
    threshold: u8,
) -> bool {
    &&& is_vote_emoji(emoji)
    &&& active.contains(message_id)
    &&& match found_reaction(rs, emoji) {
        Some(rx) => rx.count >= threshold,
        None => false,
    }
}

/// The registry after a resolved vote: on approval, the vote message's
/// candidate word enters the channel's vocabulary, provided the text
/// carries one and the channel is registered; otherwise nothing changes.
pub open spec fn store_after_vote(
    m: Map<Seq<char>, ChannelView>,
    id: Seq<char>,
    content: Seq<char>,
    approved: bool,
) -> Map<Seq<char>, ChannelView> {
    match vote_word_of(content) {
        Some(token) => {
            if approved && m.dom().contains(id) {
                m.insert(id, with_word(m[id], canon(token)))
            } else {
                m
            }
        },
        None => m,
    }
}

/// Handles one reaction-added event against the re-fetched message.
/// Under the caller's single exclusive section it decides whether the
/// vote resolves, removes it from the in-flight set exactly once, and on
/// an approving quorum admits the message's candidate word into the
/// channel's vocabulary.
pub fn update_vote(
    votes: &mut VoteTracker,
    store: &mut ChannelStore,
    channel_id: &str,
    message_id: &str,
    emoji: &str,
    reactions: &Vec<Reaction>,
    content: &str,
    threshold: u8,
) -> (r: VoteUpdate)
    requires
        old(votes).inv(),
        old(store).inv(),
    ensures
        final(votes).inv(),
        final(store).inv(),
        !vote_fires(old(votes)@, message_id@, emoji@, reactions.deep_view(), threshold) ==> {
            &&& r is Ignored
            &&& final(votes)@ == old(votes)@
            &&& final(store)@ == old(store)@
        },
        vote_fires(old(votes)@, message_id@, emoji@, reactions.deep_view(), threshold) ==> {
            &&& final(votes)@ == old(votes)@.remove(message_id@)
            &&& (r matches VoteUpdate::Resolved { approved, reply, admitted } && {
                &&& approved == (emoji@ == "👍"@)
                &&& (if approved {
                    reply@ == "可決されました。この単語を使用リストに追加します。"@
                } else {
                    reply@ == "否決されました。"@
                })
                &&& final(store)@ == store_after_vote(old(store)@, channel_id@, content@, approved)
                &&& (match (vote_word_of(content@), approved) {
                    (Some(token), true) => admitted matches Some(w) && w@ == canon(token),
                    _ => admitted is None,
                })
            })
        },
{
    let is_approve = str_eq(emoji, "👍");
    let is_reject = str_eq(emoji, "👎");
    if !is_approve && !is_reject {
        return VoteUpdate::Ignored;
    }
    let count = match find_reaction_count(reactions, emoji) {
        Some(c) => c,
        None => {
            return VoteUpdate::Ignored;
        },
    };
    if !votes.resolve_if_quorum(message_id, count, threshold) {
        return VoteUpdate::Ignored;
    }
    let reply = if is_approve {
        String::from_str("可決されました。この単語を使用リストに追加します。")
    } else {
        String::from_str("否決されました。")
    };
    let admitted = if is_approve {
        match extract_vote_word(content) {
            Some(w) => {
                proof {
                    lemma_canon_normal(vote_word_of(content@)->0);
                }
                let _ = store.admit_word(channel_id, w.as_str());
                Some(w)
            },
            None => None,
        }
    } else {
        None
    };
    VoteUpdate::Resolved { approved: is_approve, reply, admitted }
}

/// The edited result of the similarity check: either that nothing close
/// is in use, or the list of close words, one per line.
pub fn similar_words_reply(word: &str, matches: &Vec<String>) -> (r: String)
    ensures
        matches.deep_view().len() == 0 ==> r@ == word@ + " に近似する単語は使用されていません。"@,
        matches.deep_view().len() > 0 ==> r@ == word@ + " に近い単語\\n"@ + joined_lines(
            matches.deep_view(),
        ) + "\\nが見つかりました。"@,
{
    if matches.len() == 0 {
        suffixed(word, " に近似する単語は使用されていません。")
    } else {
        let mut out = String::from_str(word);
        out.append(" に近い単語\\n");
        let joined = join_lines(matches);
        out.append(joined.as_str());
        out.append("\\nが見つかりました。");
        out
    }
}

} // verus!
