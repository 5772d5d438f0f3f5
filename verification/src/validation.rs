//! Medication name validation.
//!
//! A medication name is accepted when it is 3 to 14 characters long, does not
//! contain the substring "server" in any letter case, and is left unchanged by
//! the cleaning pipeline: first every character outside a fixed allow-list
//! (ASCII letters, digits, common punctuation and a few medical emoji) is
//! stripped, then every occurrence of a word from a fixed profanity list is
//! masked with `'*'`. A name that the pipeline would alter is rejected rather
//! than silently corrected.

use vstd::prelude::*;

verus! {

/// The code point of a character with ASCII upper-case letters folded to
/// lower case, so that matching is case-insensitive.
pub open spec fn fold_char(c: char) -> int {
    if 'A' <= c && c <= 'Z' {
        c as int + 32
    } else {
        c as int
    }
}

/// The word `w` matches `s` at position `i`, ignoring ASCII letter case.
pub open spec fn matches_at(s: Seq<char>, w: Seq<char>, i: int) -> bool {
    forall|j: int| 0 <= j < w.len() ==> fold_char(s[i + j]) == fold_char(w[j])
}

/// The word `w` occurs somewhere in `s`, ignoring ASCII letter case.
pub open spec fn contains_word(s: Seq<char>, w: Seq<char>) -> bool {
    exists|i: int| 0 <= i && i + w.len() <= s.len() && matches_at(s, w, i)
}

/// The fixed allow-list: ASCII letters and digits, common punctuation, and a
/// small set of medical emoji.
pub open spec fn is_allowed_char(c: char) -> bool {
    ||| 'a' <= c && c <= 'z'
    ||| 'A' <= c && c <= 'Z'
    ||| '0' <= c && c <= '9'
    ||| c == ' ' || c == '-' || c == '_' || c == '.' || c == ','
    ||| c == '\'' || c == '(' || c == ')' || c == '/' || c == '+'
    ||| c == '\u{1F48A}' || c == '\u{1F489}' || c == '\u{1FA79}'
    ||| c == '\u{1F9EA}' || c == '\u{1FA7A}'
}

/// The fixed profanity list; every word is lower case and non-empty.
pub open spec fn deny_words() -> Seq<Seq<char>> {
    seq!["fuck"@, "shit"@, "bitch"@, "cunt"@, "piss"@]
}

/// `s` contains some word of the profanity list, ignoring letter case.
pub open spec fn profane(s: Seq<char>) -> bool {
    exists|k: int| 0 <= k < deny_words().len() && contains_word(s, deny_words()[k])
}

/// Removing every character outside the allow-list.
pub open spec fn sanitize_spec(s: Seq<char>) -> Seq<char> {
    s.filter(|c: char| is_allowed_char(c))
}

/// Position `i` of `s` lies inside some occurrence of a profanity word.
pub open spec fn masked_at(s: Seq<char>, i: int) -> bool {
    exists|k: int, st: int|
        {
            &&& 0 <= k < deny_words().len()
            &&& 0 <= st <= i
            &&& i < st + deny_words()[k].len()
            &&& st + deny_words()[k].len() <= s.len()
            &&& matches_at(s, deny_words()[k], st)
        }
}

/// Replacing every character inside an occurrence of a profanity word with
/// `'*'`; characters outside such occurrences are kept.
pub open spec fn mask_spec(s: Seq<char>) -> Seq<char> {
    Seq::new(s.len(), |i: int| if masked_at(s, i) { '*' } else { s[i] })
}

/// A valid medication name: 3 to 14 characters, free of the substring
/// "server" in any letter case, and unchanged by sanitizing and masking.
pub open spec fn valid_name(s: Seq<char>) -> bool {
    &&& 3 <= s.len() <= 14
    &&& !contains_word(s, "server"@)
    &&& mask_spec(sanitize_spec(s)) == s
}

/// A sequence in which every character is allowed is unchanged by sanitizing.
proof fn lemma_sanitize_of_allowed(s: Seq<char>)
    requires
        forall|i: int| 0 <= i < s.len() ==> is_allowed_char(#[trigger] s[i]),
    ensures
        sanitize_spec(s) == s,
    decreases s.len(),
{
    reveal(Seq::filter);
    if s.len() > 0 {
        lemma_sanitize_of_allowed(s.drop_last());
        assert(sanitize_spec(s) =~= s);
    } else {
        assert(sanitize_spec(s) =~= s);
    }
}

/// Sanitizing only ever shortens, and keeps the length only when every
/// character was allowed.
proof fn lemma_sanitize_full_length(s: Seq<char>)
    requires
        sanitize_spec(s).len() == s.len(),
    ensures
        sanitize_spec(s) == s,
        forall|i: int| 0 <= i < s.len() ==> is_allowed_char(#[trigger] s[i]),
    decreases s.len(),
{
    reveal(Seq::filter);
    if s.len() > 0 {
        let sub = s.drop_last();
        sub.lemma_filter_len(|c: char| is_allowed_char(c));
        if !is_allowed_char(s.last()) {
            assert(sanitize_spec(s).len() <= sub.len());
            assert(false);
        }
        lemma_sanitize_full_length(sub);
        assert(sanitize_spec(s) =~= s);
        assert forall|i: int| 0 <= i < s.len() implies is_allowed_char(#[trigger] s[i]) by {
            if i < s.len() - 1 {
                assert(is_allowed_char(sub[i]));
            }
        }
    } else {
        assert(sanitize_spec(s) =~= s);
    }
}

/// Every profanity word is non-empty and starts with a lower-case letter.
proof fn lemma_deny_words_shape()
    ensures
        forall|k: int| 0 <= k < deny_words().len() ==> (#[trigger] deny_words()[k]).len() >= 1,
        forall|k: int|
            0 <= k < deny_words().len() ==> 'a' <= (#[trigger] deny_words()[k])[0]
                && deny_words()[k][0] <= 'z',
{
    reveal_strlit("fuck");
    reveal_strlit("shit");
    reveal_strlit("bitch");
    reveal_strlit("cunt");
    reveal_strlit("piss");
    assert(deny_words()[0] == "fuck"@);
    assert(deny_words()[1] == "shit"@);
    assert(deny_words()[2] == "bitch"@);
    assert(deny_words()[3] == "cunt"@);
    assert(deny_words()[4] == "piss"@);
    assert forall|k: int| 0 <= k < deny_words().len() implies (#[trigger] deny_words()[k]).len()
        >= 1 && 'a' <= deny_words()[k][0] && deny_words()[k][0] <= 'z' by {
        if k == 0 {
            assert(deny_words()[k][0] == 'f');
        } else if k == 1 {
            assert(deny_words()[k][0] == 's');
        } else if k == 2 {
            assert(deny_words()[k][0] == 'b');
        } else if k == 3 {
            assert(deny_words()[k][0] == 'c');
        } else {
            assert(deny_words()[k][0] == 'p');
        }
    }
}

/// Masking leaves a sequence unchanged exactly when it contains no profanity.
proof fn lemma_mask_identity(s: Seq<char>)
    ensures
        mask_spec(s) == s <==> !profane(s),
{
    lemma_deny_words_shape();
    if profane(s) {
        let k = choose|k: int| 0 <= k < deny_words().len() && contains_word(s, deny_words()[k]);
        let w = deny_words()[k];
        let st = choose|i: int| 0 <= i && i + w.len() <= s.len() && matches_at(s, w, i);
        assert(masked_at(s, st));
        assert(mask_spec(s)[st] == '*');
        assert(fold_char(s[st]) == fold_char(w[0]));
        assert('a' <= w[0] && w[0] <= 'z');
        assert(fold_char(w[0]) == w[0] as int);
        assert(s[st] != '*') by {
            if s[st] == '*' {
                assert(fold_char(s[st]) == '*' as int);
            }
        }
        assert(mask_spec(s) != s);
    } else {
        assert forall|i: int| 0 <= i < s.len() implies !masked_at(s, i) by {
            if masked_at(s, i) {
                let (k, st) = choose|k: int, st: int|
                    {
                        &&& 0 <= k < deny_words().len()
                        &&& 0 <= st <= i
                        &&& i < st + deny_words()[k].len()
                        &&& st + deny_words()[k].len() <= s.len()
                        &&& matches_at(s, deny_words()[k], st)
                    };
                assert(contains_word(s, deny_words()[k]));
            }
        }
        assert(mask_spec(s) =~= s);
    }
}

/// The law behind `is_valid`: a name is valid exactly when its length is 3 to
/// 14, it is free of the substring "server" in any letter case, every one of
/// its characters is on the allow-list, and it contains no profanity word.
pub proof fn lemma_valid_name_characterization(s: Seq<char>)
    ensures
        valid_name(s) <==> {
            &&& 3 <= s.len() <= 14
            &&& !contains_word(s, "server"@)
            &&& forall|i: int| 0 <= i < s.len() ==> is_allowed_char(#[trigger] s[i])
            &&& !profane(s)
        },
{
    let clean = 3 <= s.len() <= 14 && !contains_word(s, "server"@) && (forall|i: int|
        0 <= i < s.len() ==> is_allowed_char(#[trigger] s[i])) && !profane(s);
    if clean {
        lemma_sanitize_of_allowed(s);
        lemma_mask_identity(s);
    }
    if valid_name(s) {
        assert(mask_spec(sanitize_spec(s)).len() == sanitize_spec(s).len());
        lemma_sanitize_full_length(s);
        lemma_mask_identity(s);
    }
}

/// Every name of length 3 to 14 built solely from allowed characters, free of
/// profanity and of the substring "server" in any letter case, is valid.
pub proof fn lemma_clean_name_is_valid(s: Seq<char>)
    requires
        3 <= s.len() <= 14,
        forall|i: int| 0 <= i < s.len() ==> is_allowed_char(#[trigger] s[i]),
        !contains_word(s, "server"@),
        !profane(s),
    ensures
        valid_name(s),
{
    lemma_valid_name_characterization(s);
}

/// Every name shorter than 3 or longer than 14 characters is invalid.
pub proof fn lemma_bad_length_is_invalid(s: Seq<char>)
    requires
        s.len() < 3 || s.len() > 14,
    ensures
        !valid_name(s),
{
}

/// Folds an ASCII upper-case letter to lower case and returns the code point.
fn fold_char_exec(c: char) -> (r: u32)
    ensures
        r == fold_char(c),
{
    let v = c as u32;
    if 'A' <= c && c <= 'Z' {
        v + 32
    } else {
        v
    }
}

/// Whether the character is on the fixed allow-list.
pub fn allowed_char(c: char) -> (r: bool)
    ensures
        r == is_allowed_char(c),
{
    ('a' <= c && c <= 'z') || ('A' <= c && c <= 'Z') || ('0' <= c && c <= '9') || c == ' ' || c
        == '-' || c == '_' || c == '.' || c == ',' || c == '\'' || c == '(' || c == ')' || c == '/'
        || c == '+' || c == '\u{1F48A}' || c == '\u{1F489}' || c == '\u{1FA79}' || c == '\u{1F9EA}'
        || c == '\u{1FA7A}'
}

/// Whether `w` occurs in `s`, ignoring ASCII letter case.
pub fn contains_ci(s: &str, w: &str) -> (r: bool)
    requires
        w@.len() >= 1,
    ensures
        r == contains_word(s@, w@),
{
    let n = s.unicode_len();
    let m = w.unicode_len();
    if m > n {
        return false;
    }
    let mut i: usize = 0;
    while i <= n - m
        invariant
            m <= n == s@.len(),
            m == w@.len(),
            1 <= m,
            i <= n - m + 1,
            forall|p: int| 0 <= p < i ==> !matches_at(s@, w@, p),
        decreases n - m + 1 - i,
    {
        let mut j: usize = 0;
        let mut hit = true;
        while j < m
            invariant
                m <= n == s@.len(),
                m == w@.len(),
                i + m <= n,
                j <= m,
                hit <==> forall|q: int| 0 <= q < j ==> fold_char(s@[i + q]) == fold_char(w@[q]),
            decreases m - j,
        {
            let a = fold_char_exec(s.get_char(i + j));
            let b = fold_char_exec(w.get_char(j));
            if a != b {
                hit = false;
                assert(fold_char(s@[i + j as int]) != fold_char(w@[j as int]));
                j = m;
            } else {
                assert(fold_char(s@[i + j as int]) == fold_char(w@[j as int]));
                j = j + 1;
            }
        }
        if hit {
            assert(matches_at(s@, w@, i as int));
            return true;
        }
        proof {
            if matches_at(s@, w@, i as int) {
                assert(forall|q: int|
                    0 <= q < w@.len() ==> fold_char(s@[i + q]) == fold_char(w@[q]));
                assert(false);
            }
        }
        i = i + 1;
    }
    assert forall|p: int| 0 <= p && p + w@.len() <= s@.len() implies !matches_at(s@, w@, p) by {
        assert(p < i);
    }
    false
}

/// Validates a medication name: accepted exactly when it is 3 to 14
/// characters long, free of the substring "server" in any letter case, and
/// unchanged by stripping disallowed characters and masking profanity.
pub fn is_valid(name: &str) -> (r: bool)
    ensures
        r == valid_name(name@),
{
    proof {
        lemma_valid_name_characterization(name@);
        reveal_strlit("server");
        reveal_strlit("fuck");
        reveal_strlit("shit");
        reveal_strlit("bitch");
        reveal_strlit("cunt");
        reveal_strlit("piss");
    }
    let n = name.unicode_len();
    if n < 3 || n > 14 {
        return false;
    }
    let mut i: usize = 0;
    while i < n
        invariant
            n == name@.len(),
            i <= n,
            forall|p: int| 0 <= p < i ==> is_allowed_char(#[trigger] name@[p]),
        decreases n - i,
    {
        if !allowed_char(name.get_char(i)) {
            proof {
                lemma_valid_name_characterization(name@);
            }
            return false;
        }
        i = i + 1;
    }
    if contains_ci(name, "server") {
        return false;
    }
    if contains_ci(name, "fuck") || contains_ci(name, "shit") || contains_ci(name, "bitch")
        || contains_ci(name, "cunt") || contains_ci(name, "piss") {
        proof {
            assert(profane(name@)) by {
                if contains_word(name@, "fuck"@) {
                    assert(contains_word(name@, deny_words()[0]));
                } else if contains_word(name@, "shit"@) {
                    assert(contains_word(name@, deny_words()[1]));
                } else if contains_word(name@, "bitch"@) {
                    assert(contains_word(name@, deny_words()[2]));
                } else if contains_word(name@, "cunt"@) {
                    assert(contains_word(name@, deny_words()[3]));
                } else {
                    assert(contains_word(name@, deny_words()[4]));
                }
            }
        }
        return false;
    }
    proof {
        assert(!profane(name@)) by {
            if profane(name@) {
                let k = choose|k: int|
                    0 <= k < deny_words().len() && contains_word(name@, deny_words()[k]);
                if k == 0 {
                    assert(contains_word(name@, "fuck"@));
                } else if k == 1 {
                    assert(contains_word(name@, "shit"@));
                } else if k == 2 {
                    assert(contains_word(name@, "bitch"@));
                } else if k == 3 {
                    assert(contains_word(name@, "cunt"@));
                } else {
                    assert(contains_word(name@, "piss"@));
                }
            }
        }
        lemma_clean_name_is_valid(name@);
    }
    true
}

} // verus!
