use card_import::error::{Failure, FailureKind, LookupError};
use card_import::parse::{parse_text, ParsedEntry};
use card_import::resolve::{
    resolve_entry, CardRecord, ImageUris, OutputCard, Policy, Resolution, Resolved,
};

fn images(id: &str) -> ImageUris {
    let url = |size: &str| format!("https://img.example/{}/{}.jpg", size, id);
    ImageUris {
        small: url("small"),
        normal: url("normal"),
        large: url("large"),
        png: url("png"),
        art_crop: url("art_crop"),
        border_crop: url("border_crop"),
    }
}

fn record(name: &str, colors: &[&str]) -> CardRecord {
    CardRecord {
        name: name.to_string(),
        colors: Some(colors.iter().map(|c| c.to_string()).collect()),
        image_uris: Some(images(&name.to_lowercase().replace(' ', "_"))),
    }
}

/// A fixed card service: a few known names, and two names that make it fail.
fn mock_lookup(name: &str) -> Result<CardRecord, LookupError> {
    match name {
        "Lightning Bolt" | "lightning bolt" => Ok(record("Lightning Bolt", &["R"])),
        "Counterspell" => Ok(record("Counterspell", &["U"])),
        "Black Lotus" => Ok(record("Black Lotus", &[])),
        "Ponder" => Ok(CardRecord { name: "Ponder".to_string(), colors: None, image_uris: None }),
        "Offline" => Err(LookupError::Transport),
        "Broken" => Err(LookupError::Service),
        _ => Err(LookupError::NotFound),
    }
}

fn import(text: &str, policy: Policy) -> Result<Resolved, Failure> {
    let mut res = Resolution::new(parse_text(text), policy);
    while let Some(name) = res.next_lookup() {
        let outcome = mock_lookup(name);
        res.record(outcome);
    }
    res.finish()
}

fn summary(cards: &[OutputCard]) -> Vec<(u64, String, Option<Vec<String>>)> {
    cards.iter().map(|c| (c.quantity, c.name.clone(), c.colors.clone())).collect()
}

fn colors(cs: &[&str]) -> Option<Vec<String>> {
    Some(cs.iter().map(|c| c.to_string()).collect())
}

#[test]
fn resolves_every_entry_in_order() {
    let r = import("4 Lightning Bolt\n2 Counterspell\n\nPonder", Policy::FailFast).ok().unwrap();
    assert_eq!(
        summary(&r.cards),
        vec![
            (4, "Lightning Bolt".to_string(), colors(&["R"])),
            (2, "Counterspell".to_string(), colors(&["U"])),
            (1, "Ponder".to_string(), None),
        ]
    );
    assert!(r.failures.is_empty());
}

#[test]
fn card_copies_the_record_artwork() {
    let r = import("1 Black Lotus", Policy::Continue).ok().unwrap();
    let card = &r.cards[0];
    assert_eq!(card.colors, Some(Vec::<String>::new()));
    let img = card.image_uris.as_ref().unwrap();
    assert_eq!(img.normal, "https://img.example/normal/black_lotus.jpg");
    assert_eq!(img.border_crop, "https://img.example/border_crop/black_lotus.jpg");
}

#[test]
fn card_keeps_the_typed_name() {
    let r = import("3 lightning bolt", Policy::FailFast).ok().unwrap();
    assert_eq!(r.cards[0].name, "lightning bolt");
    assert_eq!(r.cards[0].colors, colors(&["R"]));
}

#[test]
fn not_found_fails_the_whole_import_under_fail_fast() {
    let text = "4 Lightning Bolt\n1 Black Lotus (typo)\n2 Counterspell";
    let f = import(text, Policy::FailFast).err().unwrap();
    assert_eq!(f.kind, FailureKind::LookupNotFound);
    assert_eq!(f.subject, "Black Lotus (typo)");
}

#[test]
fn fail_fast_stops_looking_up_after_a_failure() {
    let mut res = Resolution::new(parse_text("Nope\nCounterspell"), Policy::FailFast);
    let name = res.next_lookup().unwrap().to_string();
    assert_eq!(name, "Nope");
    res.record(mock_lookup(&name));
    assert!(res.next_lookup().is_none());
    assert_eq!(res.results.len(), 1);
}

#[test]
fn not_found_is_recorded_and_the_rest_resolved_under_continue() {
    let text = "4 Lightning Bolt\n1 Black Lotus (typo)\n2 Counterspell";
    let r = import(text, Policy::Continue).ok().unwrap();
    assert_eq!(
        summary(&r.cards),
        vec![
            (4, "Lightning Bolt".to_string(), colors(&["R"])),
            (2, "Counterspell".to_string(), colors(&["U"])),
        ]
    );
    assert_eq!(r.failures.len(), 1);
    assert_eq!(r.failures[0].kind, FailureKind::LookupNotFound);
    assert_eq!(r.failures[0].subject, "Black Lotus (typo)");
}

#[test]
fn failures_keep_their_kind_and_order() {
    let r = import("Offline\nPonder\n2 Broken\nMissing", Policy::Continue).ok().unwrap();
    let kinds: Vec<(FailureKind, String)> =
        r.failures.iter().map(|f| (f.kind, f.subject.clone())).collect();
    assert_eq!(
        kinds,
        vec![
            (FailureKind::LookupTransportFailure, "Offline".to_string()),
            (FailureKind::LookupServiceFailure, "Broken".to_string()),
            (FailureKind::LookupNotFound, "Missing".to_string()),
        ]
    );
    assert_eq!(summary(&r.cards), vec![(1, "Ponder".to_string(), None)]);
}

#[test]
fn empty_list_resolves_to_nothing() {
    let r = import("\n  \n", Policy::FailFast).ok().unwrap();
    assert!(r.cards.is_empty());
    assert!(r.failures.is_empty());
}

#[test]
fn lookup_errors_map_to_failure_kinds() {
    assert_eq!(LookupError::NotFound.failure_kind(), FailureKind::LookupNotFound);
    assert_eq!(LookupError::Transport.failure_kind(), FailureKind::LookupTransportFailure);
    assert_eq!(LookupError::Service.failure_kind(), FailureKind::LookupServiceFailure);
}

#[test]
fn resolve_entry_merges_quantity_and_record() {
    let entry = ParsedEntry { quantity: 3, name: "Lightning Bolt".to_string() };
    let card = resolve_entry(entry, mock_lookup("Lightning Bolt")).ok().unwrap();
    assert_eq!(card.quantity, 3);
    assert_eq!(card.name, "Lightning Bolt");
    assert_eq!(card.colors, colors(&["R"]));
    let entry = ParsedEntry { quantity: 1, name: "Offline".to_string() };
    let f = resolve_entry(entry, mock_lookup("Offline")).err().unwrap();
    assert_eq!(f.kind, FailureKind::LookupTransportFailure);
    assert_eq!(f.subject, "Offline");
}

#[test]
fn resolving_a_card_again_gives_the_same_card() {
    let first = import("4 Counterspell", Policy::FailFast).ok().unwrap().cards;
    let again_text = format!("{} {}", first[0].quantity, first[0].name);
    let again = import(&again_text, Policy::FailFast).ok().unwrap().cards;
    assert_eq!(summary(&first), summary(&again));
    assert_eq!(
        first[0].image_uris.as_ref().unwrap().png,
        again[0].image_uris.as_ref().unwrap().png
    );
}
