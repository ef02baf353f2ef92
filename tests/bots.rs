use chatbot::actions::known_actions;
use chatbot::bots::{
    alice, alice_reply, beate, beate_reply, cara, cara_reply, divya, eudora, respond,
};
use std::cell::RefCell;

fn words(ws: &[&str]) -> Vec<String> {
    ws.iter().map(|w| w.to_string()).collect()
}

#[test]
fn divya_without_actions_sends_hearts() {
    assert_eq!(divya(vec![]), format!("Divya:{}", "<3 ".repeat(30)));
}

#[test]
fn divya_with_one_to_four_actions() {
    assert_eq!(divya(words(&["code"])), "Divya:eat, sleep, code, repeat");
    assert_eq!(divya(words(&["eat", "code"])), "Divya:eat, sleep, code, repeat");
    assert_eq!(divya(words(&["code", "cycle"])), "Divya:code, sleep, cycle, repeat");
    assert_eq!(
        divya(words(&["eat", "sleep", "code", "cycle"])),
        "Divya:eat, sleep, code, repeat"
    );
}

#[test]
fn eudora_counts_actions() {
    assert_eq!(eudora(vec![]), "Eudora:Couldn't even think of anything? Scrub.");
    assert_eq!(eudora(words(&["eat"])), "Eudora:One thing? Try harder.");
    assert_eq!(eudora(words(&["eat", "code"])), "Eudora:Hmm... Maybe I underestimated you.");
    assert_eq!(eudora(words(&["eat", "sleep", "code"])), "Eudora:Wargh, 3?! I'm losing count!");
    let many: Vec<String> = (0..12).map(|i| i.to_string()).collect();
    assert_eq!(eudora(many), "Eudora:Wargh, 12?! I'm losing count!");
}

#[test]
fn alice_reply_with_picks() {
    assert_eq!(alice_reply(&vec![], 0, 0), "Alice:What are you on about?");
    assert_eq!(alice_reply(&vec![], 0, 1), "Alice:I literally can't even...");
    let acts = words(&["eat", "sleep"]);
    assert_eq!(alice_reply(&acts, 1, 0), "Alice:Hmm... I don't want to sleep");
    assert_eq!(alice_reply(&acts, 0, 1), "Alice:I don't really feel up for a eat");
}

#[test]
fn alice_always_answers() {
    for _ in 0..20 {
        let r = alice(words(&["code"]));
        assert!(
            r == "Alice:Hmm... I don't want to code" || r == "Alice:I don't really feel up for a code",
            "{}",
            r
        );
        let r = alice(vec![]);
        assert!(r == "Alice:What are you on about?" || r == "Alice:I literally can't even...");
    }
}

#[test]
fn beate_reply_with_picks() {
    assert_eq!(beate_reply(&vec![], 0, 0), "");
    assert_eq!(
        beate_reply(&words(&["eat", "cycle"]), 1, 2),
        "Beate:A cycle would be chill, But how about we do some scalding!"
    );
}

#[test]
fn beate_is_silent_without_actions() {
    assert_eq!(beate(vec![]), "");
    for _ in 0..20 {
        let r = beate(words(&["sleep"]));
        let ok = ["harvesting", "slicing", "scalding"].iter().any(|alt| {
            r == format!("Beate:A sleep would be chill, But how about we do some {}!", alt)
        });
        assert!(ok, "{}", r);
    }
}

#[test]
fn cara_reply_with_picks() {
    assert_eq!(cara_reply(&words(&["eat"]), true, 0, 1), "");
    assert_eq!(
        cara_reply(&vec![], true, 0, 1),
        "Cara:It's chill, I didn't really feel like doing anything either. Let's just relax"
    );
    assert_eq!(
        cara_reply(&vec![], false, 4, 1),
        "Cara:Hmmm, maybe we can slumber... Ooh ooh I know, lets snooze!"
    );
}

#[test]
fn cara_answers_only_without_actions() {
    assert_eq!(cara(words(&["eat"])), "");
    let rests = ["sleep", "snooze", "doze", "nap", "slumber", "rest"];
    for _ in 0..20 {
        let r = cara(vec![]);
        let relaxed =
            r == "Cara:It's chill, I didn't really feel like doing anything either. Let's just relax";
        let mut suggested = false;
        for a in rests.iter() {
            for b in rests.iter() {
                if a != b && r == format!("Cara:Hmmm, maybe we can {}... Ooh ooh I know, lets {}!", a, b) {
                    suggested = true;
                }
            }
        }
        assert!(relaxed || suggested, "{}", r);
    }
}

#[test]
fn responder_receives_the_actions_of_the_message() {
    let seen: RefCell<Vec<Vec<String>>> = RefCell::new(Vec::new());
    let bot = |actions: Vec<String>| {
        seen.borrow_mut().push(actions.clone());
        if actions.is_empty() {
            String::new()
        } else {
            format!("Bot:{}", actions.join("+"))
        }
    };
    let reply = respond("I want to eat and sleep", &known_actions(), &bot);
    assert_eq!(reply, Some("Bot:eat+sleep".to_string()));
    let mut got = seen.borrow()[0].clone();
    got.sort();
    assert_eq!(got, vec!["eat".to_string(), "sleep".to_string()]);
}

#[test]
fn silent_responder_is_never_forwarded() {
    let silent = |_actions: Vec<String>| String::new();
    assert_eq!(respond("I want to eat and sleep", &known_actions(), &silent), None);
    assert_eq!(respond("nothing at all", &known_actions(), &silent), None);
}

#[test]
fn responders_tell_empty_from_non_empty_action_sets() {
    let empty = respond("hello there", &known_actions(), &eudora);
    let some = respond("time to CODE", &known_actions(), &eudora);
    assert_eq!(empty, Some("Eudora:Couldn't even think of anything? Scrub.".to_string()));
    assert_eq!(some, Some("Eudora:One thing? Try harder.".to_string()));
    assert_ne!(empty, some);
    assert_eq!(respond("hello there", &known_actions(), &beate), None);
    assert_eq!(respond("time to CODE", &known_actions(), &cara), None);
}
