use ha_bridge::delay::Delay;
use ha_bridge::misc::{hostname, hostname_or_default, HumanReadable, Sluggable, SuffixStrip};

#[test]
fn can_generate_a_slug() {
    assert_eq!("Renée-52".slug(), "Renee-52");
    assert_eq!("Zoë%".slug(), "Zoe_");
    assert_eq!("Adrián 19".slug(), "Adrian_19");
    assert_eq!("Mónic@ [34]".slug(), "Monic___34_");
    assert_eq!("ترجمة".slug(), "_____");
    assert_eq!("emoji👍".slug(), "emoji_");
    assert_eq!("Außensirene".slug(), "Au_ensirene");
    assert_eq!("font variant: ℍℌ".slug(), "font_variant__HH");
    assert_eq!("super/subscript: i⁹ i₉".slug(), "super_subscript__i9_i9");
    assert_eq!("fraction: ¼".slug(), "fraction__1_4");
}

#[test]
fn slug_of_owned_string_matches_str() {
    assert_eq!(String::from("Café Noir").slug(), "Cafe_Noir");
    assert_eq!(String::new().slug(), "");
}

#[test]
fn can_strip_repeated_suffix() {
    assert_eq!("Hello world".strip_repeated_suffix("!"), "Hello world");
    assert_eq!("Hello world!".strip_repeated_suffix("!"), "Hello world");
    assert_eq!(
        "Hello world!!!!!!!!!".strip_repeated_suffix("!"),
        "Hello world"
    );
}

#[test]
fn strip_repeated_suffix_edge_cases() {
    assert_eq!("http://host///".strip_repeated_suffix("/"), "http://host");
    assert_eq!(String::from("abab").strip_repeated_suffix("ab"), "");
    assert_eq!("aba".strip_repeated_suffix("ab"), "aba");
    assert_eq!("keep".strip_repeated_suffix(""), "keep");
    assert_eq!("".strip_repeated_suffix("x"), "");
}

#[test]
fn can_pretty_format_durations() {
    assert_eq!(
        Delay::from_millis(943).prettify(),
        "943ms",
        "should displat ms only"
    );
    assert_eq!(
        Delay::from_secs(32).prettify(),
        "32s",
        "should display seconds only"
    );
    assert_eq!(
        Delay::from_secs(100000).prettify(),
        "27h 46m 40s",
        "should display d h m s"
    );
    assert_eq!(
        Delay::from_secs(89160).prettify(),
        "24h 46m",
        "should hide empty units"
    );
    assert_eq!(
        Delay::from_millis(6141600030).prettify(),
        "71d 2h",
        "ms are ignored"
    );
    assert_eq!(
        Delay::from_secs(120 * 86400 + 11 * 3600 + 25 * 60 + 10).prettify(),
        "120d 11h 25m 10s",
        "days are the highest unit"
    );
    assert_eq!(
        Delay::from_secs(71 * 3600 + 25 * 60 + 10).prettify(),
        "71h 25m 10s",
        "hours are the highest unit until we reach 72h"
    );
    assert_eq!(
        Delay::from_secs(119 * 60 + 10).prettify(),
        "119m 10s",
        "minutes are the highest unit until we reach 120m"
    );
}

#[test]
fn pretty_format_boundaries() {
    assert_eq!(Delay::from_millis(1500).prettify(), "1.5s");
    assert_eq!(Delay::from_secs(119).prettify(), "119s");
    assert_eq!(Delay::from_secs(120).prettify(), "2m");
    assert_eq!(Delay::from_secs(120 * 60).prettify(), "120m");
    assert_eq!(Delay::from_secs(121 * 60).prettify(), "2h 1m");
    assert_eq!(Delay::from_secs(72 * 3600).prettify(), "3d");
    assert_eq!(Delay::zero().prettify(), "0ns");
}

#[test]
fn hostname_falls_back_to_localhost() {
    assert_eq!(hostname_or_default(None), "localhost");
    assert_eq!(hostname_or_default(Some(None)), "");
    assert_eq!(hostname_or_default(Some(Some("box".to_string()))), "box");
    assert!(!hostname().contains('\n'));
}
