use shiritori::event::{
    already_registered_reply, check_mention_for_me, check_word, dictionary_recognizes,
    dictionary_reply, exists_word_reply, extract_vote_word, find_reaction_count, invalid_vote,
    registration_reply, similar_words_reply, update_vote, valid_vote, MentionAction, Reaction,
    VoteUpdate,
};
use shiritori::game::ChannelStore;
use shiritori::utility::generate_basic_message;
use shiritori::vote::VoteTracker;

#[test]
fn mention_check_consumes_mentions() {
    let mentions = vec!["Somebody".to_string(), "NS Shiritori".to_string()];
    assert_eq!(
        check_mention_for_me(&mentions, false),
        MentionAction::AttemptRegister
    );
    assert_eq!(
        check_mention_for_me(&mentions, true),
        MentionAction::ReplyAlreadyRegistered
    );
}

#[test]
fn mention_check_falls_through() {
    let mentions = vec!["Somebody Else".to_string()];
    assert_eq!(check_mention_for_me(&mentions, false), MentionAction::Through);
    assert_eq!(check_mention_for_me(&Vec::new(), true), MentionAction::Through);
}

#[test]
fn mention_replies() {
    assert_eq!(registration_reply(true), "チャンネルの登録が完了しました。");
    assert_eq!(registration_reply(false), "登録が失敗しました。");
    assert_eq!(
        already_registered_reply(),
        "このチャンネルは既に登録されています。"
    );
}

#[test]
fn check_word_plans_the_four_checks() {
    let plan = check_word("note-book").unwrap();
    assert_eq!(plan.word, "note book");
    assert_eq!(plan.exist_probe, "note book を検索中...");
    assert_eq!(plan.dict_probe, "note book を dictionary api で検索中...");
    assert_eq!(plan.like_probe, "note book を使用単語から検索中...");
    assert_eq!(plan.vote_announcement, "「note book」 の有効投票を開始します。");
}

#[test]
fn check_word_rejects_bad_tokens() {
    assert!(check_word("abc123").is_none());
    assert!(check_word("").is_none());
}

#[test]
fn check_replies_exact() {
    assert_eq!(exists_word_reply("cat", true), "cat は既に使用されています。");
    assert_eq!(
        exists_word_reply("cat", false),
        "cat と完全一致する単語は使用されていません。"
    );
    assert_eq!(
        dictionary_reply("cat", true),
        "cat が dictionary api で見つかりました。"
    );
    assert_eq!(
        dictionary_reply("cat", false),
        "cat は dictionary apiでは見つかりませんでした。"
    );
}

#[test]
fn similar_reply_joins_lines() {
    assert_eq!(
        similar_words_reply("cat", &Vec::new()),
        "cat に近似する単語は使用されていません。"
    );
    let matches = vec!["cab".to_string(), "bat".to_string()];
    assert_eq!(
        similar_words_reply("cat", &matches),
        "cat に近い単語\\ncab\nbat\\nが見つかりました。"
    );
}

#[test]
fn dictionary_verdict_reads_first_byte() {
    assert!(dictionary_recognizes("[{\"word\":\"cat\"}]"));
    assert!(!dictionary_recognizes("{\"title\":\"No Definitions Found\"}"));
    assert!(!dictionary_recognizes(""));
}

#[test]
fn extracts_vote_word_from_announcement() {
    assert_eq!(
        extract_vote_word("「note book」 の有効投票を開始します。"),
        Some("note book".to_string())
    );
    // the captured token is canonicalized like any candidate
    assert_eq!(extract_vote_word("「Note-Book」 x"), Some("note book".to_string()));
}

#[test]
fn extract_vote_word_rejects_other_texts() {
    assert_eq!(extract_vote_word("note book"), None);
    assert_eq!(extract_vote_word("「a」 x"), None);
    assert_eq!(extract_vote_word("「note book の有効投票を開始します。"), None);
    assert_eq!(extract_vote_word(""), None);
}

#[test]
fn reaction_lookup_finds_first_match() {
    let reactions = vec![
        Reaction { emoji_name: "👎".to_string(), count: 1 },
        Reaction { emoji_name: "👍".to_string(), count: 3 },
    ];
    assert_eq!(find_reaction_count(&reactions, "👍"), Some(3));
    assert_eq!(find_reaction_count(&reactions, "👎"), Some(1));
    assert_eq!(find_reaction_count(&reactions, "🎉"), None);
    assert_eq!(valid_vote(), "👍");
    assert_eq!(invalid_vote(), "👎");
}

#[test]
fn approving_quorum_admits_the_word() {
    let mut store = ChannelStore::new();
    store.register("c").unwrap();
    let mut votes = VoteTracker::new();
    votes.open_vote("m1");
    let reactions = vec![Reaction { emoji_name: "👍".to_string(), count: 3 }];
    let outcome = update_vote(
        &mut votes,
        &mut store,
        "c",
        "m1",
        "👍",
        &reactions,
        "「note book」 の有効投票を開始します。",
        3,
    );
    match outcome {
        VoteUpdate::Resolved { approved, reply, admitted } => {
            assert!(approved);
            assert_eq!(reply, "可決されました。この単語を使用リストに追加します。");
            assert_eq!(admitted, Some("note book".to_string()));
        }
        VoteUpdate::Ignored => panic!("vote should resolve"),
    }
    assert!(!votes.is_active("m1"));
    assert_eq!(store.get_words("c"), Some(vec!["note book".to_string()]));
}

#[test]
fn rejecting_quorum_leaves_words_unchanged() {
    let mut store = ChannelStore::new();
    store.register("c").unwrap();
    let mut votes = VoteTracker::new();
    votes.open_vote("m2");
    let reactions = vec![
        Reaction { emoji_name: "👍".to_string(), count: 1 },
        Reaction { emoji_name: "👎".to_string(), count: 3 },
    ];
    let outcome = update_vote(
        &mut votes,
        &mut store,
        "c",
        "m2",
        "👎",
        &reactions,
        "「note book」 の有効投票を開始します。",
        3,
    );
    match outcome {
        VoteUpdate::Resolved { approved, reply, admitted } => {
            assert!(!approved);
            assert_eq!(reply, "否決されました。");
            assert_eq!(admitted, None);
        }
        VoteUpdate::Ignored => panic!("vote should resolve"),
    }
    assert!(!votes.is_active("m2"));
    assert_eq!(store.get_words("c"), Some(vec![]));
}

#[test]
fn under_quorum_or_foreign_emoji_is_ignored() {
    let mut store = ChannelStore::new();
    store.register("c").unwrap();
    let mut votes = VoteTracker::new();
    votes.open_vote("m");
    let low = vec![Reaction { emoji_name: "👍".to_string(), count: 2 }];
    assert!(matches!(
        update_vote(&mut votes, &mut store, "c", "m", "👍", &low, "「cat」", 3),
        VoteUpdate::Ignored
    ));
    assert!(votes.is_active("m"));
    let other = vec![Reaction { emoji_name: "🎉".to_string(), count: 9 }];
    assert!(matches!(
        update_vote(&mut votes, &mut store, "c", "m", "🎉", &other, "「cat」", 3),
        VoteUpdate::Ignored
    ));
    assert!(votes.is_active("m"));
}

#[test]
fn inactive_message_is_ignored() {
    let mut store = ChannelStore::new();
    store.register("c").unwrap();
    let mut votes = VoteTracker::new();
    let reactions = vec![Reaction { emoji_name: "👍".to_string(), count: 5 }];
    assert!(matches!(
        update_vote(&mut votes, &mut store, "c", "m", "👍", &reactions, "「cat」", 3),
        VoteUpdate::Ignored
    ));
}

#[test]
fn basic_message_body() {
    assert_eq!(
        generate_basic_message("hi"),
        "{\"content\":\"hi\", \"tts\": false}"
    );
}
