use zapzap::reactions::{Reactions, MESSAGES, ME};

#[test]
fn counts_by_emoji_most_used_first() {
    let mut reactions = Reactions::default();
    reactions.set(0, "a", "ana", "😂");
    reactions.set(0, "a", "bia", "👍");
    reactions.set(0, "a", "caio", "👍");
    reactions.set(0, "a", ME, "👍");
    assert_eq!(reactions.line(0, "a"), ["REACTIONS", "0", "a", "👍", "👍:3 😂:1"]);
}

#[test]
fn changing_or_taking_back_a_reaction() {
    let mut reactions = Reactions::default();
    reactions.set(1, "b", "ana", "❤");
    reactions.set(1, "b", "ana", "🙏");
    assert_eq!(reactions.line(1, "b"), ["REACTIONS", "1", "b", "", "🙏:1"]);
    reactions.set(1, "b", "ana", "");
    assert_eq!(reactions.line(1, "b"), ["REACTIONS", "1", "b", "", ""]);
}

#[test]
fn forgets_the_oldest_message() {
    let mut reactions = Reactions::default();
    for n in 0..=MESSAGES {
        reactions.set(0, &n.to_string(), "ana", "👍");
    }
    assert_eq!(reactions.line(0, "0")[4], "");
    assert_eq!(reactions.line(0, "1")[4], "👍:1");
}

#[test]
fn equally_used_emoji_keep_the_order_they_first_came_in_and_only_three_show() {
    let mut reactions = Reactions::new();
    for (who, emoji) in [("a", "1"), ("b", "2"), ("c", "3"), ("d", "4"), ("e", "4")] {
        reactions.set(7, "m", who, emoji);
    }
    assert_eq!(reactions.line(7, "m"), ["REACTIONS", "7", "m", "", "4:2 1:1 2:1"]);
}
