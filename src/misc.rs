//! Text helpers: identifiers made safe for topics, repeated suffixes taken
//! off, and delays written for people.
use vstd::prelude::*;
use crate::delay::{Delay, NANOS_PER_SEC};
use crate::text::{decimal, holds_at, push_decimal};
use regex::Regex;
use unicode_normalization::UnicodeNormalization;

verus! {

/// `s` with `suffix` taken off its end for as long as it ends with it. An
/// empty suffix takes nothing off.
pub open spec fn stripped(s: Seq<char>, suffix: Seq<char>) -> Seq<char>
    decreases s.len(),
{
    if suffix.len() > 0 && suffix.len() <= s.len() && s.subrange(
        s.len() - suffix.len(),
        s.len() as int,
    ) == suffix {
        stripped(s.subrange(0, s.len() - suffix.len()), suffix)
    } else {
        s
    }
}

pub trait SuffixStrip {
    /// The text that is stripped.
    spec fn text(&self) -> Seq<char>;

    fn strip_repeated_suffix(&self, suffix: &str) -> (r: String)
        ensures
            r@ == stripped(self.text(), suffix@),
    ;
}

fn strip_repeated(s: &str, suffix: &str) -> (r: String)
    ensures
        r@ == stripped(s@, suffix@),
{
    let n = s.unicode_len();
    let m = suffix.unicode_len();
    let mut end: usize = n;
    assert(s@.subrange(0, n as int) =~= s@);
    if m > 0 {
        while end >= m && holds_at(s, end - m, suffix)
            invariant
                n == s@.len(),
                m == suffix@.len(),
                m > 0,
                end <= n,
                stripped(s@.subrange(0, end as int), suffix@) == stripped(s@, suffix@),
            decreases end,
        {
            proof {
                let t = s@.subrange(0, end as int);
                assert(t.subrange(t.len() - m, t.len() as int) =~= s@.subrange(end - m, end as int));
                assert(t.subrange(0, t.len() - m) =~= s@.subrange(0, end - m));
            }
            end = end - m;
        }
        proof {
            let t = s@.subrange(0, end as int);
            if end >= m {
                assert(t.subrange(t.len() - m, t.len() as int) =~= s@.subrange(end - m, end as int));
            }
        }
    } else {
        assert(s@.subrange(0, n as int) =~= s@);
    }
    let r = String::from_str(s.substring_char(0, end));
    proof {
        if m > 0 {
            assert(s@.subrange(0, n as int) =~= s@);
        }
    }
    r
}

impl SuffixStrip for String {
    open spec fn text(&self) -> Seq<char> {
        self@
    }

    fn strip_repeated_suffix(&self, suffix: &str) -> (r: String) {
        strip_repeated(self.as_str(), suffix)
    }
}

impl<'a> SuffixStrip for &'a str {
    open spec fn text(&self) -> Seq<char> {
        (*self)@
    }

    fn strip_repeated_suffix(&self, suffix: &str) -> (r: String) {
        strip_repeated(*self, suffix)
    }
}

/// The compatibility decomposition (NFKD) of `s`.
pub uninterp spec fn nfkd_of(s: Seq<char>) -> Seq<char>;

/// `s` without its combining marks (Unicode category M).
pub uninterp spec fn without_marks(s: Seq<char>) -> Seq<char>;

/// Relies on unicode_normalization's `nfkd`: the NFKD form of the text, a
/// function of the text alone.
#[verifier::external_body]
fn decompose(s: &str) -> (r: String)
    ensures
        r@ == nfkd_of(s@),
{
    s.nfkd().collect::<String>()
}

/// Relies on regex's `Regex::replace_all` with the pattern `\p{M}` and an
/// empty replacement: the text with every combining mark removed.
#[verifier::external_body]
fn remove_marks(s: &str) -> (r: String)
    ensures
        r@ == without_marks(s@),
{
    Regex::new(r"\p{M}").unwrap().replace_all(s, "").into_owned()
}

/// Whether `c` may stand in a slug as it is: an ASCII letter or digit, `_`
/// or `-`.
pub open spec fn slug_safe(c: char) -> bool {
    ('a' <= c <= 'z') || ('A' <= c <= 'Z') || ('0' <= c <= '9') || c == '_' || c == '-'
}

/// Each character of `s` that may not stand in a slug replaced by `_`.
pub open spec fn ascii_slug(s: Seq<char>) -> Seq<char> {
    Seq::new(s.len(), |i: int| if slug_safe(s[i]) { s[i] } else { '_' })
}

/// The slug of a text: decomposed, without diacritics, and with every other
/// character outside `[a-zA-Z0-9_-]` replaced by `_`.
pub open spec fn slug_of(s: Seq<char>) -> Seq<char> {
    ascii_slug(without_marks(nfkd_of(s)))
}

fn replace_unsafe(s: &str) -> (r: String)
    ensures
        r@ == ascii_slug(s@),
{
    let n = s.unicode_len();
    let mut r = String::new();
    let mut i: usize = 0;
    while i < n
        invariant
            n == s@.len(),
            i <= n,
            r@ == ascii_slug(s@).subrange(0, i as int),
        decreases n - i,
    {
        let c = s.get_char(i);
        let safe = ('a' <= c && c <= 'z') || ('A' <= c && c <= 'Z') || ('0' <= c && c <= '9')
            || c == '_' || c == '-';
        if safe {
            r.push(c);
        } else {
            r.push('_');
        }
        assert(ascii_slug(s@).subrange(0, i + 1) =~= ascii_slug(s@).subrange(0, i as int).push(
            ascii_slug(s@)[i as int],
        ));
        i = i + 1;
    }
    assert(ascii_slug(s@).subrange(0, n as int) =~= ascii_slug(s@));
    r
}

pub trait Sluggable {
    /// The text that the slug is made of.
    spec fn text(&self) -> Seq<char>;

    fn slug(&self) -> (r: String)
        ensures
            r@ == slug_of(self.text()),
    ;
}

fn slug_str(s: &str) -> (r: String)
    ensures
        r@ == slug_of(s@),
{
    let decomposed = decompose(s);
    let bare = remove_marks(decomposed.as_str());
    replace_unsafe(bare.as_str())
}

impl Sluggable for String {
    open spec fn text(&self) -> Seq<char> {
        self@
    }

    fn slug(&self) -> (r: String) {
        slug_str(self.as_str())
    }
}

impl<'a> Sluggable for &'a str {
    open spec fn text(&self) -> Seq<char> {
        (*self)@
    }

    fn slug(&self) -> (r: String) {
        slug_str(*self)
    }
}

/// How `std::time::Duration`'s `Debug` writes a span of `nanos` nanoseconds
/// (`943ms`, `32s`, `1.5s`).
pub uninterp spec fn duration_debug_text(nanos: nat) -> Seq<char>;

/// Relies on the `Debug` impl of `std::time::Duration`, which depends on the
/// span alone.
#[verifier::external_body]
fn duration_debug(d: &Delay) -> (r: String)
    ensures
        r@ == duration_debug_text(d@),
{
    format!("{:?}", std::time::Duration::new(d.as_secs(), d.subsec_nanos()))
}

/// ` <v><unit>`, or nothing when `v` is zero.
pub open spec fn unit_part(v: nat, unit: char) -> Seq<char> {
    if v == 0 {
        Seq::empty()
    } else {
        seq![' '] + decimal(v) + seq![unit]
    }
}

/// A delay written for people. Under two minutes, as `Duration`'s `Debug`
/// writes it. Up to 120 minutes, in minutes and seconds; under 72 hours, in
/// hours, minutes and seconds; beyond, in days, hours, minutes and seconds.
/// Units whose count is zero are left out, as are sub-second parts.
pub open spec fn pretty_text(nanos: nat) -> Seq<char> {
    let secs = nanos / (NANOS_PER_SEC as nat);
    let mins = secs / 60;
    let hours = secs / 3600;
    let days = secs / 86400;
    if secs < 120 {
        duration_debug_text(nanos)
    } else if mins <= 120 {
        (unit_part(mins, 'm') + unit_part(secs % 60, 's')).drop_first()
    } else if hours < 72 {
        (unit_part(hours, 'h') + unit_part(mins % 60, 'm') + unit_part(secs % 60, 's')).drop_first()
    } else {
        (unit_part(days, 'd') + unit_part(hours % 24, 'h') + unit_part(mins % 60, 'm') + unit_part(
            secs % 60,
            's',
        )).drop_first()
    }
}

fn push_unit(s: &mut String, v: u64, unit: char)
    ensures
        final(s)@ == old(s)@ + unit_part(v as nat, unit),
{
    if v == 0 {
        assert(old(s)@ + unit_part(v as nat, unit) =~= old(s)@);
    } else {
        let ghost s0 = s@;
        s.push(' ');
        push_decimal(s, v);
        s.push(unit);
        assert(s@ =~= s0 + unit_part(v as nat, unit));
    }
}

pub trait HumanReadable {
    /// What `prettify` writes.
    spec fn pretty(&self) -> Seq<char>;

    fn prettify(&self) -> (r: String)
        ensures
            r@ == self.pretty(),
    ;
}

impl HumanReadable for Delay {
    open spec fn pretty(&self) -> Seq<char> {
        pretty_text(self@)
    }

    fn prettify(&self) -> (r: String) {
        let secs = self.as_secs();
        if secs < 120 {
            return duration_debug(self);
        }
        let mins = secs / 60;
        let hours = secs / 3600;
        let days = secs / 86400;
        let mut s = String::new();
        if mins <= 120 {
            push_unit(&mut s, mins, 'm');
            push_unit(&mut s, secs % 60, 's');
        } else if hours < 72 {
            push_unit(&mut s, hours, 'h');
            push_unit(&mut s, mins % 60, 'm');
            push_unit(&mut s, secs % 60, 's');
        } else {
            push_unit(&mut s, days, 'd');
            push_unit(&mut s, hours % 24, 'h');
            push_unit(&mut s, mins % 60, 'm');
            push_unit(&mut s, secs % 60, 's');
        }
        assert(s@.len() > 0);
        let n = s.unicode_len();
        let r = String::from_str(s.as_str().substring_char(1, n));
        assert(r@ =~= s@.drop_first());
        r
    }
}

/// Relies on hostname's `get`: the machine's name when it can be read, and
/// then the name as UTF-8 text when it is such text. Nothing is promised of the
/// name itself, which depends on the machine.
#[verifier::external_body]
fn machine_name() -> (r: Option<Option<String>>)
{
    hostname::get().ok().map(|name| name.to_str().map(|text| text.to_string()))
}

/// The host name to report, from what was read: `localhost` when no name could
/// be read, nothing when the name is not UTF-8 text, else the name.
pub fn hostname_or_default(read: Option<Option<String>>) -> (r: String)
    ensures
        r@ == match read {
            None => "localhost"@,
            Some(None) => Seq::<char>::empty(),
            Some(Some(name)) => name@,
        },
{
    match read {
        None => String::from_str("localhost"),
        Some(None) => String::new(),
        Some(Some(name)) => name,
    }
}

/// The name of this machine, or `localhost` when it cannot be read.
pub fn hostname() -> (r: String) {
    hostname_or_default(machine_name())
}

} // verus!
