//! Extraction of the actions that a chat message mentions.

use vstd::prelude::*;

verus! {

/// The actions that the responders understand.
pub fn known_actions() -> (r: [&'static str; 4])
    ensures
        str_views(r@) == seq!["eat"@, "sleep"@, "code"@, "cycle"@],
{
    let r = ["eat", "sleep", "code", "cycle"];
    assert(str_views(r@) =~= seq!["eat"@, "sleep"@, "code"@, "cycle"@]);
    r
}

/// Whether `word` occurs in `text` as a contiguous run of characters.
pub open spec fn occurs_in(text: Seq<char>, word: Seq<char>) -> bool {
    exists|i: int| 0 <= i <= text.len() - word.len() && #[trigger] text.subrange(i, i + word.len()) == word
}

/// The words of `vocabulary` that occur in `text`, in vocabulary order.
pub open spec fn actions_in(text: Seq<char>, vocabulary: Seq<Seq<char>>) -> Seq<Seq<char>>
    decreases vocabulary.len(),
{
    if vocabulary.len() == 0 {
        Seq::empty()
    } else if occurs_in(text, vocabulary.last()) {
        actions_in(text, vocabulary.drop_last()).push(vocabulary.last())
    } else {
        actions_in(text, vocabulary.drop_last())
    }
}

/// The text of each of a sequence of string slices.
pub open spec fn str_views(v: Seq<&str>) -> Seq<Seq<char>> {
    v.map_values(|s: &str| s@)
}

/// The text of each of a sequence of strings.
pub open spec fn string_views(v: Seq<String>) -> Seq<Seq<char>> {
    v.map_values(|s: String| s@)
}

/// The lower-case form of a text, as `str::to_lowercase` gives it.
pub uninterp spec fn lowercase_of(s: Seq<char>) -> Seq<char>;

/// Relies on str::to_lowercase: its result depends on the characters alone.
#[verifier::external_body]
fn to_lowercase(s: &str) -> (r: String)
    ensures
        r@ == lowercase_of(s@),
{
    s.to_lowercase()
}

/// Whether `word` occurs in `text`.
pub fn contains_word(text: &str, word: &str) -> (r: bool)
    ensures
        r == occurs_in(text@, word@),
{
    let n = text.unicode_len();
    let m = word.unicode_len();
    if m > n {
        return false;
    }
    let mut i: usize = 0;
    while i <= n - m
        invariant
            n == text@.len(),
            m == word@.len(),
            m <= n,
            0 <= i <= n - m + 1,
            forall|k: int| 0 <= k < i ==> #[trigger] text@.subrange(k, k + m) != word@,
        decreases n - m + 1 - i,
    {
        let mut j: usize = 0;
        let mut same = true;
        while j < m
            invariant
                n == text@.len(),
                m == word@.len(),
                i + m <= n,
                0 <= j <= m,
                same == (forall|k: int| 0 <= k < j ==> text@[i + k] == word@[k]),
            decreases m - j,
        {
            if text.get_char(i + j) != word.get_char(j) {
                same = false;
            }
            j = j + 1;
        }
        if same {
            assert(text@.subrange(i as int, i + m) =~= word@);
            return true;
        }
        assert(text@.subrange(i as int, i + m) != word@) by {
            let k = choose|k: int| 0 <= k < m && text@[i + k] != word@[k];
            assert(text@.subrange(i as int, i + m)[k] == text@[i + k]);
        }
        i = i + 1;
    }
    false
}

/// The actions of `known_actions` that occur in `msg`, each once, in the
/// order of `known_actions`.
pub fn parse_actions(msg: String, known_actions: &[&str]) -> (r: Vec<String>)
    ensures
        string_views(r@) == actions_in(msg@, str_views(known_actions@)),
{
    let mut actions: Vec<String> = Vec::new();
    let mut i: usize = 0;
    while i < known_actions.len()
        invariant
            0 <= i <= known_actions@.len(),
            string_views(actions@) == actions_in(msg@, str_views(known_actions@.subrange(0, i as int))),
        decreases known_actions@.len() - i,
    {
        let action = known_actions[i];
        let ghost prefix = known_actions@.subrange(0, i as int + 1);
        assert(str_views(prefix).drop_last() =~= str_views(known_actions@.subrange(0, i as int)));
        assert(str_views(prefix).last() == action@);
        if contains_word(msg.as_str(), action) {
            let ghost before = actions@;
            actions.push(action.to_owned());
            assert(string_views(actions@) =~= string_views(before).push(action@));
        }
        i = i + 1;
    }
    assert(known_actions@.subrange(0, known_actions@.len() as int) =~= known_actions@);
    actions
}

/// The actions that `msg` mentions, whatever the case of its letters.
pub fn extract_actions(msg: &str, known_actions: &[&str]) -> (r: Vec<String>)
    ensures
        string_views(r@) == actions_in(lowercase_of(msg@), str_views(known_actions@)),
{
    parse_actions(to_lowercase(msg), known_actions)
}

/// Every word of a vocabulary without repeats is among the extracted
/// actions exactly when it occurs in the text, and none is extracted twice,
/// whatever the repeats and the order of the words in the text.
pub proof fn lemma_actions_exact(text: Seq<char>, vocabulary: Seq<Seq<char>>)
    requires
        vocabulary.no_duplicates(),
    ensures
        forall|w: Seq<char>|
            #[trigger] actions_in(text, vocabulary).contains(w) <==> vocabulary.contains(w)
                && occurs_in(text, w),
        actions_in(text, vocabulary).no_duplicates(),
    decreases vocabulary.len(),
{
    if vocabulary.len() > 0 {
        let init = vocabulary.drop_last();
        let last = vocabulary.last();
        assert(init.no_duplicates());
        lemma_actions_exact(text, init);
        assert forall|w: Seq<char>| vocabulary.contains(w) <==> init.contains(w) || w == last by {
            if vocabulary.contains(w) {
                let k = choose|k: int| 0 <= k < vocabulary.len() && vocabulary[k] == w;
                if k < init.len() {
                    assert(init[k] == w);
                }
            }
            if init.contains(w) {
                let k = choose|k: int| 0 <= k < init.len() && init[k] == w;
                assert(vocabulary[k] == w);
            }
            if w == last {
                assert(vocabulary[vocabulary.len() - 1] == w);
            }
        }
        assert(!init.contains(last)) by {
            if init.contains(last) {
                let k = choose|k: int| 0 <= k < init.len() && init[k] == last;
                assert(vocabulary[k] == vocabulary[vocabulary.len() - 1]);
            }
        }
        let prev = actions_in(text, init);
        if occurs_in(text, last) {
            assert forall|w: Seq<char>| prev.push(last).contains(w) <==> prev.contains(w) || w == last by {
                if prev.push(last).contains(w) {
                    let k = choose|k: int| 0 <= k < prev.push(last).len() && prev.push(last)[k] == w;
                    if k < prev.len() {
                        assert(prev[k] == w);
                    }
                }
                if prev.contains(w) {
                    let k = choose|k: int| 0 <= k < prev.len() && prev[k] == w;
                    assert(prev.push(last)[k] == w);
                }
                if w == last {
                    assert(prev.push(last)[prev.len() as int] == w);
                }
            }
            assert(prev.push(last).no_duplicates()) by {
                assert forall|a: int, b: int|
                    0 <= a < b < prev.push(last).len() implies prev.push(last)[a] != prev.push(last)[b] by {
                    if b == prev.len() {
                        assert(prev.contains(prev[a]));
                    } else {
                        assert(prev[a] != prev[b]);
                    }
                }
            }
        }
        assert forall|w: Seq<char>|
            #[trigger] actions_in(text, vocabulary).contains(w) <==> vocabulary.contains(w)
                && occurs_in(text, w) by {
            assert(prev.contains(w) <==> init.contains(w) && occurs_in(text, w));
        }
    }
}

} // verus!
