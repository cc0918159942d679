//! The emoji catalog.

use clipd::emoji::{default_set, score_of, search, search_in, EmojiEntry, Group};

fn entry(glyph: &str, name: &str, shortcodes: &[&str], group: Group) -> EmojiEntry {
    EmojiEntry {
        glyph: glyph.into(),
        name: name.into(),
        shortcodes: shortcodes.iter().map(|s| s.to_string()).collect(),
        group,
    }
}

fn glyphs(entries: &[EmojiEntry]) -> Vec<&str> {
    entries.iter().map(|e| e.glyph.as_str()).collect()
}

fn strings(texts: &[&str]) -> Vec<String> {
    texts.iter().map(|s| s.to_string()).collect()
}

#[test]
fn scores_tell_what_matched() {
    let score = |q: &str, name: &str, aliases: &[&str]| score_of(q, name, &strings(aliases));
    assert_eq!(score("cat", "cat", &["cat"]), Some(0));
    assert_eq!(score("cat", "feline", &["cat", "dog"]), Some(1));
    assert_eq!(score("cat", "cat face", &["dog"]), Some(2));
    assert_eq!(score("cat", "feline", &["dog", "cat"]), Some(11));
    assert_eq!(score("cat", "feline", &["cats"]), Some(10));
    assert_eq!(score("cat", "a cat", &["x"]), Some(30));
    assert_eq!(score("cat", "feline", &["x", "y", "black_cat"]), Some(102));
    assert_eq!(score("cat", "feline", &["dog"]), None);
    assert_eq!(score("cat", "feline", &[]), None);
    assert_eq!(score("", "feline", &[]), Some(2));
}

#[test]
fn better_matches_come_first() {
    let all = [
        entry("1", "scatter", &[], Group::Symbols),
        entry("2", "Cat face", &[], Group::AnimalsAndNature),
        entry("3", "feline", &["kitty", "CAT"], Group::AnimalsAndNature),
        entry("4", "dog", &[], Group::AnimalsAndNature),
        entry("5", "CAT", &[], Group::AnimalsAndNature),
        entry("6", "cat paw", &[], Group::AnimalsAndNature),
        entry("7", "x", &["cat"], Group::AnimalsAndNature),
    ];
    assert_eq!(glyphs(&search_in(&all, "cAt", 10)), ["5", "7", "2", "6", "3", "1"]);
    assert_eq!(glyphs(&search_in(&all, "  cat ", 2)), ["5", "7"]);
    assert!(search_in(&all, "zebra", 10).is_empty());
    assert!(search_in(&all, "cat", 0).is_empty());
}

#[test]
fn popular_emojis_come_without_a_query() {
    let all = [
        entry("a", "a", &[], Group::Flags),
        entry("b", "b", &[], Group::SmileysAndEmotion),
        entry("c", "c", &[], Group::Objects),
        entry("d", "d", &[], Group::PeopleAndBody),
        entry("e", "e", &[], Group::SmileysAndEmotion),
    ];
    assert_eq!(glyphs(&default_set(&all, 10)), ["b", "d", "e"]);
    assert_eq!(glyphs(&default_set(&all, 2)), ["b", "d"]);
    assert_eq!(glyphs(&search_in(&all, " \t", 2)), ["b", "d"]);
    assert!(default_set(&all, 0).is_empty());
}

#[test]
fn the_catalog_is_searched() {
    let rockets = search("rocket", 10);
    assert_eq!(rockets[0].glyph, "🚀");
    assert_eq!(rockets[0].name, "rocket");
    assert_eq!(rockets[0].shortcodes, ["rocket"]);
    assert_eq!(rockets[0].group, Group::TravelAndPlaces);
    assert_eq!(search("ROCKET", 1)[0].glyph, "🚀");
    assert_eq!(search("+1", 1)[0].glyph, "👍");
}

#[test]
fn the_catalog_opens_with_smileys() {
    assert_eq!(glyphs(&search("", 5)), ["😀", "😃", "😄", "😁", "😆"]);
    assert_eq!(search("", 80).len(), 80);
    let all = search("", usize::MAX);
    let expected: Vec<&str> = emojis::iter()
        .filter(|e| {
            e.group() == emojis::Group::SmileysAndEmotion || e.group() == emojis::Group::PeopleAndBody
        })
        .map(|e| e.as_str())
        .collect();
    assert_eq!(glyphs(&all), expected);
}

#[test]
fn every_group_of_the_catalog_is_told() {
    for (name, group) in [
        ("grinning face", Group::SmileysAndEmotion),
        ("waving hand", Group::PeopleAndBody),
        ("dog face", Group::AnimalsAndNature),
        ("grapes", Group::FoodAndDrink),
        ("rocket", Group::TravelAndPlaces),
        ("soccer ball", Group::Activities),
        ("light bulb", Group::Objects),
        ("wheelchair symbol", Group::Symbols),
        ("rainbow flag", Group::Flags),
    ] {
        assert_eq!(search(name, 1)[0].group, group, "{name}");
    }
}

#[test]
fn searches_rank_the_catalog_as_scores_do() {
    let q = "heart";
    let mut expected: Vec<(u128, &str)> = emojis::iter()
        .filter_map(|e| {
            let aliases: Vec<String> = e.shortcodes().map(|s| s.to_lowercase()).collect();
            score_of(q, &e.name().to_lowercase(), &aliases).map(|s| (s, e.as_str()))
        })
        .collect();
    expected.sort_by_key(|(s, _)| *s);
    let expected: Vec<&str> = expected.into_iter().map(|(_, g)| g).collect();
    assert_eq!(glyphs(&search(q, usize::MAX)), expected);
}
