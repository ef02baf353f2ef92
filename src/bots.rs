//! Scripted responders: each turns the actions that a message mentions into
//! a canned reply, or into no reply at all (the empty string).

use vstd::prelude::*;
use crate::actions::{actions_in, extract_actions, lowercase_of, str_views, string_views};
use rand::Rng;

verus! {

/// Relies on rand's `Rng::gen_range` over the thread-local generator: the
/// value lies in `0..n` (the call panics on an empty range).
#[verifier::external_body]
fn random_below(n: usize) -> (r: usize)
    requires
        n > 0,
    ensures
        r < n,
{
    rand::thread_rng().gen_range(0..n)
}

/// Relies on `rand::random` for a `bool`; either value may come back.
#[verifier::external_body]
fn random_flag() -> (r: bool) {
    rand::random::<bool>()
}

/// Relies on rand's `seq::index::sample` with an amount of two: two distinct
/// indices below `n` (the call panics where `n` is below two).
#[verifier::external_body]
fn random_pair(n: usize) -> (r: (usize, usize))
    requires
        n >= 2,
    ensures
        r.0 < n,
        r.1 < n,
        r.0 != r.1,
{
    let picked = rand::seq::index::sample(&mut rand::thread_rng(), n, 2);
    (picked.index(0), picked.index(1))
}

/// The decimal digit for `d`.
pub open spec fn digit(d: nat) -> char {
    seq!['0', '1', '2', '3', '4', '5', '6', '7', '8', '9'][d as int]
}

/// The decimal numeral of `n`, without leading zeros.
pub open spec fn decimal(n: nat) -> Seq<char>
    decreases n,
{
    if n < 10 {
        seq![digit(n)]
    } else {
        decimal(n / 10).push(digit(n % 10))
    }
}

/// Relies on the `Display` impl of `usize` (through `to_string`): the decimal
/// numeral of the value.
#[verifier::external_body]
fn decimal_text(n: usize) -> (r: String)
    ensures
        r@ == decimal(n as nat),
{
    n.to_string()
}

/// `t` written `n` times in a row.
pub open spec fn repeated(t: Seq<char>, n: nat) -> Seq<char>
    decreases n,
{
    if n == 0 {
        Seq::empty()
    } else {
        repeated(t, (n - 1) as nat) + t
    }
}

/// Hands the actions that `msg` mentions to `bot`, and returns its answer
/// where it is not empty.
pub fn respond<F: Fn(Vec<String>) -> String>(msg: &str, known_actions: &[&str], bot: &F) -> (r:
    Option<String>)
    requires
        forall|a: Vec<String>| bot.requires((a,)),
    ensures
        exists|a: Vec<String>, reply: String|
            {
                &&& string_views(a@) == actions_in(lowercase_of(msg@), str_views(known_actions@))
                &&& bot.ensures((a,), reply)
                &&& r matches Some(s) ==> s@ == reply@
                &&& (r is Some <==> reply@.len() > 0)
            },
{
    let actions = extract_actions(msg, known_actions);
    let reply = bot(actions);
    if reply.as_str().is_empty() {
        None
    } else {
        Some(reply)
    }
}

/// Alice's reply, given which action and which phrase were picked.
pub open spec fn alice_text(actions: Seq<Seq<char>>, pick: int, phrase: int) -> Seq<char> {
    if actions.len() == 0 {
        "Alice:"@ + seq!["What are you on about?"@, "I literally can't even..."@][phrase]
    } else {
        "Alice:"@ + seq!["Hmm... I don't want to "@, "I don't really feel up for a "@][phrase]
            + actions[pick]
    }
}

/// Alice's reply once the random picks are made: `pick` selects the action
/// (where there is one) and `phrase` one of two phrasings.
pub fn alice_reply(actions: &Vec<String>, pick: usize, phrase: usize) -> (r: String)
    requires
        phrase < 2,
        actions@.len() > 0 ==> pick < actions@.len(),
    ensures
        r@ == alice_text(string_views(actions@), pick as int, phrase as int),
{
    let mut r = "Alice:".to_owned();
    if actions.len() == 0 {
        let phrases = ["What are you on about?", "I literally can't even..."];
        r.append(phrases[phrase]);
        assert(r@ == alice_text(string_views(actions@), pick as int, phrase as int));
    } else {
        let phrases = ["Hmm... I don't want to ", "I don't really feel up for a "];
        r.append(phrases[phrase]);
        r.append(actions[pick].as_str());
        assert(r@ == alice_text(string_views(actions@), pick as int, phrase as int));
    }
    r
}

/// Alice always answers: she turns down one of the actions at random, or
/// complains that there were none.
pub fn alice(actions: Vec<String>) -> (r: String)
    ensures
        exists|pick: int, phrase: int|
            0 <= phrase < 2 && (actions@.len() > 0 ==> 0 <= pick < actions@.len()) && r@
                == alice_text(string_views(actions@), pick, phrase),
{
    let pick = if actions.len() == 0 {
        0
    } else {
        random_below(actions.len())
    };
    let phrase = random_below(2);
    alice_reply(&actions, pick, phrase)
}

/// Beate's reply, given which action and which alternative were picked.
pub open spec fn beate_text(actions: Seq<Seq<char>>, pick: int, alternative: int) -> Seq<char> {
    if actions.len() == 0 {
        Seq::empty()
    } else {
        "Beate:A "@ + actions[pick] + " would be chill, But how about we do some "@ + seq![
            "harvesting"@,
            "slicing"@,
            "scalding"@,
        ][alternative] + "!"@
    }
}

/// Beate's reply once the random picks are made.
pub fn beate_reply(actions: &Vec<String>, pick: usize, alternative: usize) -> (r: String)
    requires
        alternative < 3,
        actions@.len() > 0 ==> pick < actions@.len(),
    ensures
        r@ == beate_text(string_views(actions@), pick as int, alternative as int),
{
    if actions.len() == 0 {
        return String::new();
    }
    let alternatives = ["harvesting", "slicing", "scalding"];
    let mut r = "Beate:A ".to_owned();
    r.append(actions[pick].as_str());
    r.append(" would be chill, But how about we do some ");
    r.append(alternatives[alternative]);
    r.append("!");
    r
}

/// Beate stays silent where no action was mentioned; otherwise she suggests
/// something else instead of one of the actions.
pub fn beate(actions: Vec<String>) -> (r: String)
    ensures
        actions@.len() == 0 ==> r@.len() == 0,
        exists|pick: int, alternative: int|
            0 <= alternative < 3 && (actions@.len() > 0 ==> 0 <= pick < actions@.len()) && r@
                == beate_text(string_views(actions@), pick, alternative),
{
    if actions.len() == 0 {
        return beate_reply(&actions, 0, 0);
    }
    let pick = random_below(actions.len());
    let alternative = random_below(3);
    beate_reply(&actions, pick, alternative)
}

/// The ways Cara knows to do nothing.
pub open spec fn rest_words() -> Seq<Seq<char>> {
    seq!["sleep"@, "snooze"@, "doze"@, "nap"@, "slumber"@, "rest"@]
}

/// Cara's reply, given the coin toss and the two words picked.
pub open spec fn cara_text(actions: Seq<Seq<char>>, relax: bool, first: int, second: int) -> Seq<
    char,
> {
    if actions.len() > 0 {
        Seq::empty()
    } else if relax {
        "Cara:It's chill, I didn't really feel like doing anything either. Let's just relax"@
    } else {
        "Cara:Hmmm, maybe we can "@ + rest_words()[first] + "... Ooh ooh I know, lets "@
            + rest_words()[second] + "!"@
    }
}

/// Cara's reply once the coin is tossed and two distinct words are picked.
pub fn cara_reply(actions: &Vec<String>, relax: bool, first: usize, second: usize) -> (r: String)
    requires
        first < 6,
        second < 6,
    ensures
        r@ == cara_text(string_views(actions@), relax, first as int, second as int),
{
    if actions.len() > 0 {
        return String::new();
    }
    if relax {
        return "Cara:It's chill, I didn't really feel like doing anything either. Let's just relax".to_owned();
    }
    let words = ["sleep", "snooze", "doze", "nap", "slumber", "rest"];
    assert(str_views(words@) =~= rest_words());
    assert(words@[first as int]@ == rest_words()[first as int]);
    assert(words@[second as int]@ == rest_words()[second as int]);
    let mut r = "Cara:Hmmm, maybe we can ".to_owned();
    r.append(words[first]);
    r.append("... Ooh ooh I know, lets ");
    r.append(words[second]);
    r.append("!");
    r
}

/// Cara answers only where no action was mentioned: she agrees to relax, or
/// suggests two different ways of resting.
pub fn cara(actions: Vec<String>) -> (r: String)
    ensures
        actions@.len() > 0 ==> r@.len() == 0,
        exists|relax: bool, first: int, second: int|
            0 <= first < 6 && 0 <= second < 6 && first != second && r@ == cara_text(
                string_views(actions@),
                relax,
                first,
                second,
            ),
{
    if actions.len() > 0 {
        return cara_reply(&actions, true, 0, 1);
    }
    let relax = random_flag();
    let (first, second) = random_pair(6);
    cara_reply(&actions, relax, first, second)
}

/// Divya's reply: a row of hearts where no action was mentioned, otherwise
/// her motto with the first actions put in.
pub open spec fn divya_text(actions: Seq<Seq<char>>) -> Seq<char> {
    if actions.len() == 0 {
        "Divya:"@ + repeated("<3 "@, 30)
    } else if actions.len() == 1 {
        "Divya:"@ + "eat, sleep, "@ + actions[0] + ", repeat"@
    } else if actions.len() == 2 {
        "Divya:"@ + actions[0] + ", sleep, "@ + actions[1] + ", repeat"@
    } else {
        "Divya:"@ + actions[0] + ", "@ + actions[1] + ", "@ + actions[2] + ", repeat"@
    }
}

/// Divya always answers, with hearts or with her motto.
pub fn divya(actions: Vec<String>) -> (r: String)
    ensures
        r@ == divya_text(string_views(actions@)),
{
    let mut r = "Divya:".to_owned();
    if actions.len() == 0 {
        let mut n: usize = 0;
        while n < 30
            invariant
                n <= 30,
                r@ == "Divya:"@ + repeated("<3 "@, n as nat),
            decreases 30 - n,
        {
            r.append("<3 ");
            n = n + 1;
            assert(r@ =~= "Divya:"@ + repeated("<3 "@, n as nat));
        }
    } else if actions.len() == 1 {
        r.append("eat, sleep, ");
        r.append(actions[0].as_str());
        r.append(", repeat");
        assert(r@ =~= divya_text(string_views(actions@)));
    } else if actions.len() == 2 {
        r.append(actions[0].as_str());
        r.append(", sleep, ");
        r.append(actions[1].as_str());
        r.append(", repeat");
        assert(r@ =~= divya_text(string_views(actions@)));
    } else {
        r.append(actions[0].as_str());
        r.append(", ");
        r.append(actions[1].as_str());
        r.append(", ");
        r.append(actions[2].as_str());
        r.append(", repeat");
        assert(r@ =~= divya_text(string_views(actions@)));
    }
    r
}

/// Eudora's reply: a remark on how many actions were mentioned.
pub open spec fn eudora_text(count: nat) -> Seq<char> {
    if count == 0 {
        "Eudora:Couldn't even think of anything? Scrub."@
    } else if count == 1 {
        "Eudora:One thing? Try harder."@
    } else if count == 2 {
        "Eudora:Hmm... Maybe I underestimated you."@
    } else {
        "Eudora:Wargh, "@ + decimal(count) + "?! I'm losing count!"@
    }
}

/// Eudora always answers, judging how many actions there were.
pub fn eudora(actions: Vec<String>) -> (r: String)
    ensures
        r@ == eudora_text(actions@.len()),
{
    let n = actions.len();
    if n == 0 {
        "Eudora:Couldn't even think of anything? Scrub.".to_owned()
    } else if n == 1 {
        "Eudora:One thing? Try harder.".to_owned()
    } else if n == 2 {
        "Eudora:Hmm... Maybe I underestimated you.".to_owned()
    } else {
        let mut r = "Eudora:Wargh, ".to_owned();
        let count = decimal_text(n);
        r.append(count.as_str());
        r.append("?! I'm losing count!");
        r
    }
}

/// Eudora's reply to a message without actions differs from her reply to
/// one with some, so what reaches a responder shows which set it was given.
pub proof fn lemma_eudora_tells_empty_from_non_empty(none: nat, some: nat)
    requires
        none == 0,
        some > 0,
    ensures
        eudora_text(none) != eudora_text(some),
{
    reveal_strlit("Eudora:Couldn't even think of anything? Scrub.");
    reveal_strlit("Eudora:One thing? Try harder.");
    reveal_strlit("Eudora:Hmm... Maybe I underestimated you.");
    reveal_strlit("Eudora:Wargh, ");
    let empty_reply = eudora_text(none);
    assert(empty_reply[7] == 'C');
    if some == 1 {
        assert(eudora_text(some)[7] == 'O');
    } else if some == 2 {
        assert(eudora_text(some)[7] == 'H');
    } else {
        let t = eudora_text(some);
        assert(t[7] == "Eudora:Wargh, "@[7]);
        assert(t[7] == 'W');
    }
}

} // verus!
