use vstd::prelude::*;

verus! {

/// An ASCII lowercase letter.
pub open spec fn is_lower(c: char) -> bool {
    97 <= c as u32 <= 122
}

/// An ASCII uppercase letter.
pub open spec fn is_upper(c: char) -> bool {
    65 <= c as u32 <= 90
}

/// An ASCII letter.
pub open spec fn is_letter(c: char) -> bool {
    is_lower(c) || is_upper(c)
}

/// A character admitted anywhere in a raw token: a letter, a space or a
/// hyphen.
pub open spec fn is_word_char(c: char) -> bool {
    is_letter(c) || c == ' ' || c == '-'
}

/// The character-class rule on raw tokens: at least two characters, the
/// first and the last are letters, and every character is a letter, a
/// space or a hyphen.
pub open spec fn valid_token(s: Seq<char>) -> bool {
    &&& s.len() >= 2
    &&& is_letter(s[0])
    &&& is_letter(s[s.len() - 1])
    &&& forall|i: int| 0 <= i < s.len() ==> is_word_char(#[trigger] s[i])
}

/// One character of the canonical key: hyphens become spaces and
/// uppercase letters become lowercase.
pub open spec fn fold_char(c: char) -> char {
    if c == '-' {
        ' '
    } else if is_upper(c) {
        ((c as u32) + 32) as char
    } else {
        c
    }
}

/// Every character folded, spaces not yet collapsed.
pub open spec fn folded(s: Seq<char>) -> Seq<char> {
    s.map_values(|c: char| fold_char(c))
}

/// Every run of consecutive spaces collapsed to a single space.
pub open spec fn collapsed(s: Seq<char>) -> Seq<char>
    decreases s.len(),
{
    if s.len() == 0 {
        Seq::empty()
    } else if s.len() >= 2 && s[s.len() - 1] == ' ' && s[s.len() - 2] == ' ' {
        collapsed(s.drop_last())
    } else {
        collapsed(s.drop_last()).push(s[s.len() - 1])
    }
}

/// The canonical comparison key of a raw token: hyphens to spaces,
/// lowercased, space runs collapsed.
pub open spec fn canon(s: Seq<char>) -> Seq<char> {
    collapsed(folded(s))
}

/// No two consecutive characters are both spaces.
pub open spec fn no_double_spaces(s: Seq<char>) -> bool {
    forall|i: int| 0 < i < s.len() ==> !(s[i] == ' ' && #[trigger] s[i - 1] == ' ')
}

/// A string already in canonical form: a valid token made of lowercase
/// letters and single separating spaces.
pub open spec fn is_normal(s: Seq<char>) -> bool {
    &&& s.len() >= 2
    &&& is_lower(s[0])
    &&& is_lower(s[s.len() - 1])
    &&& forall|i: int| 0 <= i < s.len() ==> (is_lower(#[trigger] s[i]) || s[i] == ' ')
    &&& no_double_spaces(s)
}

fn is_letter_exec(c: char) -> (r: bool)
    ensures
        r == is_letter(c),
{
    let u = c as u32;
    (97 <= u && u <= 122) || (65 <= u && u <= 90)
}

pub(crate) fn is_word_char_exec(c: char) -> (r: bool)
    ensures
        r == is_word_char(c),
{
    is_letter_exec(c) || c == ' ' || c == '-'
}

fn fold_char_exec(c: char) -> (r: char)
    requires
        is_word_char(c),
    ensures
        r == fold_char(c),
{
    let u = c as u32;
    if c == '-' {
        ' '
    } else if 65 <= u && u <= 90 {
        ((u + 32) as u8) as char
    } else {
        c
    }
}

/// Relies on String::push: appends the one character to the string.
#[verifier::external_body]
fn push_char(s: &mut String, c: char)
    ensures
        final(s)@ == old(s)@.push(c),
{
    s.push(c);
}

proof fn lemma_collapsed_push(s: Seq<char>, c: char)
    ensures
        (s.len() > 0 && s[s.len() - 1] == ' ' && c == ' ') ==> collapsed(s.push(c)) == collapsed(
            s,
        ),
        !(s.len() > 0 && s[s.len() - 1] == ' ' && c == ' ') ==> collapsed(s.push(c)) == collapsed(
            s,
        ).push(c),
{
    assert(s.push(c).drop_last() =~= s);
    assert(s.push(c)[s.push(c).len() - 1] == c);
}

/// Decides whether a string is already a canonical key.
pub fn is_normal_exec(w: &str) -> (r: bool)
    ensures
        r == is_normal(w@),
{
    let n = w.unicode_len();
    if n < 2 {
        return false;
    }
    let mut i: usize = 0;
    let mut prev_space = false;
    while i < n
        invariant
            i <= n,
            n == w@.len(),
            forall|j: int| 0 <= j < i ==> (is_lower(#[trigger] w@[j]) || w@[j] == ' '),
            forall|j: int| 0 < j < i ==> !(w@[j] == ' ' && #[trigger] w@[j - 1] == ' '),
            prev_space == (i > 0 && w@[i as int - 1] == ' '),
        decreases n - i,
    {
        let c = w.get_char(i);
        let u = c as u32;
        if c == ' ' {
            if prev_space {
                return false;
            }
            prev_space = true;
        } else if 97 <= u && u <= 122 {
            prev_space = false;
        } else {
            return false;
        }
        i = i + 1;
    }
    let first = w.get_char(0) as u32;
    let last = w.get_char(n - 1) as u32;
    97 <= first && first <= 122 && 97 <= last && last <= 122
}

proof fn lemma_collapsed_ends(s: Seq<char>)
    requires
        s.len() > 0,
    ensures
        collapsed(s).len() > 0,
        collapsed(s)[collapsed(s).len() - 1] == s[s.len() - 1],
        collapsed(s)[0] == s[0],
    decreases s.len(),
{
    let y = s.drop_last();
    if s.len() == 1 {
        assert(collapsed(y) == Seq::<char>::empty());
        assert(collapsed(s) == collapsed(y).push(s[0]));
    } else {
        lemma_collapsed_ends(y);
        assert(y[0] == s[0]);
        assert(y[y.len() - 1] == s[s.len() - 2]);
    }
}

proof fn lemma_collapsed_chars(s: Seq<char>)
    requires
        forall|i: int| 0 <= i < s.len() ==> (is_lower(#[trigger] s[i]) || s[i] == ' '),
    ensures
        forall|i: int|
            0 <= i < collapsed(s).len() ==> (is_lower(#[trigger] collapsed(s)[i]) || collapsed(
                s,
            )[i] == ' '),
    decreases s.len(),
{
    if s.len() == 0 {
        assert(collapsed(s) == Seq::<char>::empty());
    } else {
        let y = s.drop_last();
        assert(forall|i: int| 0 <= i < y.len() ==> (is_lower(#[trigger] y[i]) || y[i] == ' '))
            by {
            assert(forall|i: int| 0 <= i < y.len() ==> #[trigger] y[i] == s[i]);
        }
        lemma_collapsed_chars(y);
        if !(s.len() >= 2 && s[s.len() - 1] == ' ' && s[s.len() - 2] == ' ') {
            let c = collapsed(s);
            assert(c == collapsed(y).push(s[s.len() - 1]));
            assert(forall|i: int|
                0 <= i < c.len() ==> (is_lower(#[trigger] c[i]) || c[i] == ' ')) by {
                assert(forall|i: int| 0 <= i < c.len() - 1 ==> #[trigger] c[i] == collapsed(y)[i]);
                assert(c[c.len() - 1] == s[s.len() - 1]);
            }
        }
    }
}

proof fn lemma_collapsed_no_doubles(s: Seq<char>)
    ensures
        no_double_spaces(collapsed(s)),
    decreases s.len(),
{
    if s.len() == 0 {
        assert(collapsed(s) == Seq::<char>::empty());
    } else if s.len() >= 2 && s[s.len() - 1] == ' ' && s[s.len() - 2] == ' ' {
        lemma_collapsed_no_doubles(s.drop_last());
    } else {
        let y = s.drop_last();
        lemma_collapsed_no_doubles(y);
        let c = collapsed(s);
        assert(c == collapsed(y).push(s[s.len() - 1]));
        if y.len() == 0 {
            assert(collapsed(y) == Seq::<char>::empty());
        } else {
            lemma_collapsed_ends(y);
            assert(y[y.len() - 1] == s[s.len() - 2]);
        }
        assert forall|i: int| 0 < i < c.len() implies !(c[i] == ' ' && #[trigger] c[i - 1]
            == ' ') by {
            if i < c.len() - 1 {
                assert(c[i] == collapsed(y)[i]);
                assert(c[i - 1] == collapsed(y)[i - 1]);
            } else {
                assert(c[i] == s[s.len() - 1]);
                if i >= 1 {
                    assert(c[i - 1] == collapsed(y)[collapsed(y).len() - 1]);
                }
            }
        }
    }
}

proof fn lemma_collapsed_identity(s: Seq<char>)
    requires
        no_double_spaces(s),
    ensures
        collapsed(s) == s,
    decreases s.len(),
{
    if s.len() == 0 {
        assert(collapsed(s) =~= s);
    } else {
        let y = s.drop_last();
        assert(no_double_spaces(y)) by {
            assert(forall|i: int| 0 <= i < y.len() ==> #[trigger] y[i] == s[i]);
        }
        lemma_collapsed_identity(y);
        assert(collapsed(s) =~= s);
    }
}

/// A token the normalizer accepts canonicalizes to a normal-form key.
pub proof fn lemma_canon_normal(s: Seq<char>)
    requires
        valid_token(s),
    ensures
        is_normal(canon(s)),
{
    let f = folded(s);
    assert(forall|i: int|
        0 <= i < f.len() ==> (is_lower(#[trigger] f[i]) || f[i] == ' ')) by {
        assert(forall|i: int|
            0 <= i < s.len() ==> is_word_char(#[trigger] s[i]) ==> (is_lower(fold_char(s[i]))
                || fold_char(s[i]) == ' '));
    }
    assert(is_lower(f[0]) && is_lower(f[f.len() - 1]));
    lemma_collapsed_ends(f);
    lemma_collapsed_chars(f);
    lemma_collapsed_no_doubles(f);
    assert(collapsed(f).len() >= 2) by {
        lemma_collapsed_ends(f.drop_last());
    }
}

/// A key already in normal form canonicalizes to itself.
pub proof fn lemma_normal_canon(s: Seq<char>)
    requires
        is_normal(s),
    ensures
        canon(s) == s,
{
    assert(folded(s) =~= s);
    lemma_collapsed_identity(s);
}

/// Normalization is idempotent: the canonical key of an accepted token
/// is itself an accepted token whose canonical key is itself.
pub proof fn lemma_normalize_idempotent(s: Seq<char>)
    requires
        valid_token(s),
    ensures
        valid_token(canon(s)),
        canon(canon(s)) == canon(s),
{
    lemma_canon_normal(s);
    lemma_normal_canon(canon(s));
}

/// A raw token that is empty, holds a character outside the
/// letter/space/hyphen class, or does not both start and end with a
/// letter, fails the character-class rule and is rejected.
pub proof fn lemma_normalize_rejects(s: Seq<char>)
    requires
        s.len() == 0 || (exists|i: int| 0 <= i < s.len() && !is_word_char(#[trigger] s[i]))
            || !is_letter(s[0]) || !is_letter(s[s.len() - 1]),
    ensures
        !valid_token(s),
{
}

/// Validates a raw token against the character-class rule and, on
/// acceptance, produces its canonical key; rejected tokens yield `None`.
pub fn normalize(raw: &str) -> (r: Option<String>)
    ensures
        r is Some ==> valid_token(raw@) && r->0@ == canon(raw@),
        r is None ==> !valid_token(raw@),
{
    let n = raw.unicode_len();
    if n < 2 {
        return None;
    }
    let mut i: usize = 0;
    while i < n
        invariant
            i <= n,
            n == raw@.len(),
            forall|j: int| 0 <= j < i ==> is_word_char(#[trigger] raw@[j]),
        decreases n - i,
    {
        let c = raw.get_char(i);
        if !is_word_char_exec(c) {
            return None;
        }
        i = i + 1;
    }
    if !is_letter_exec(raw.get_char(0)) || !is_letter_exec(raw.get_char(n - 1)) {
        return None;
    }
    let mut out = String::new();
    let mut prev_space = false;
    let mut i: usize = 0;
    while i < n
        invariant
            i <= n,
            n == raw@.len(),
            forall|j: int| 0 <= j < n ==> is_word_char(#[trigger] raw@[j]),
            out@ == collapsed(folded(raw@.take(i as int))),
            prev_space == (i > 0 && fold_char(raw@[i as int - 1]) == ' '),
        decreases n - i,
    {
        let ghost prefix = folded(raw@.take(i as int));
        let c = raw.get_char(i);
        let f = fold_char_exec(c);
        proof {
            assert(folded(raw@.take(i as int + 1)) =~= prefix.push(fold_char(raw@[i as int])));
            lemma_collapsed_push(prefix, fold_char(raw@[i as int]));
            assert(i > 0 ==> prefix[prefix.len() - 1] == fold_char(raw@[i as int - 1]));
        }
        if f == ' ' {
            if !prev_space {
                push_char(&mut out, ' ');
            }
            prev_space = true;
        } else {
            push_char(&mut out, f);
            prev_space = false;
        }
        i = i + 1;
    }
    proof {
        assert(raw@.take(n as int) =~= raw@);
    }
    Some(out)
}

} // verus!
