//! Naming of the alarm devices of a Somfy Protect site: display name,
//! identifiers, topics, and manufacturer and model.
use vstd::prelude::*;
use crate::misc::{slug_of, Sluggable};
use crate::text::{push_all, text_eq};

verus! {

/// The manufacturer that devices are credited to by default.
pub const MANUFACTURER: &'static str = "Somfy";

/// The other manufacturer that a device's definition may name.
pub const ALT_MANUFACTURER: &'static str = "Myfox";

/// What the naming reads of an alarm device.
#[derive(Clone, Debug)]
pub struct AlarmDeviceIdentity {
    pub site_id: String,
    pub device_id: String,
    /// The label the user gave the device, if any.
    pub label: Option<String>,
    /// The label of the device's definition (`Somfy Indoor Siren`).
    pub definition_label: String,
    /// The device's type as JSON text (`"box"`, quotes included).
    pub device_type: String,
}

/// The device's display name: its label, else its definition's label and id.
pub open spec fn device_name(d: AlarmDeviceIdentity) -> Seq<char> {
    match d.label {
        Some(l) => l@,
        None => d.definition_label@ + " (id="@ + d.device_id@ + ")"@,
    }
}

pub open spec fn device_unique_id(d: AlarmDeviceIdentity) -> Seq<char> {
    slug_of(MANUFACTURER@ + seq!['-'] + d.site_id@ + seq!['-'] + d.device_id@)
}

pub open spec fn device_object_id(d: AlarmDeviceIdentity) -> Seq<char> {
    slug_of(MANUFACTURER@ + seq!['_'] + d.device_type@ + seq!['_'] + device_name(d))
}

pub open spec fn device_topic_prefix(d: AlarmDeviceIdentity) -> Seq<char> {
    "somfy-protect/"@ + device_unique_id(d)
}

/// The position of the first space of `s`, if any.
pub open spec fn first_space(s: Seq<char>) -> Option<int> {
    if exists|i: int| 0 <= i < s.len() && s[i] == ' ' {
        Some(choose|i: int| 0 <= i < s.len() && s[i] == ' ' && forall|j: int| 0 <= j < i ==> s[j] != ' ')
    } else {
        None
    }
}

/// Manufacturer and model from a definition label `<manufacturer> <model>`
/// when its first word is a known manufacturer; else the default
/// manufacturer and the whole label.
pub open spec fn manufacturer_and_model(label: Seq<char>) -> (Seq<char>, Seq<char>) {
    match first_space(label) {
        Some(p) => {
            let head = label.subrange(0, p);
            if head == MANUFACTURER@ || head == ALT_MANUFACTURER@ {
                (head, label.subrange(p + 1, label.len() as int))
            } else {
                (MANUFACTURER@, label)
            }
        },
        None => (MANUFACTURER@, label),
    }
}

impl AlarmDeviceIdentity {
    pub fn name(&self) -> (r: String)
        ensures
            r@ == device_name(*self),
    {
        match &self.label {
            Some(l) => l.clone(),
            None => {
                let mut r = self.definition_label.clone();
                push_all(&mut r, " (id=");
                push_all(&mut r, self.device_id.as_str());
                push_all(&mut r, ")");
                r
            },
        }
    }

    pub fn unique_id(&self) -> (r: String)
        ensures
            r@ == device_unique_id(*self),
    {
        let mut s = String::from_str(MANUFACTURER);
        s.push('-');
        push_all(&mut s, self.site_id.as_str());
        s.push('-');
        push_all(&mut s, self.device_id.as_str());
        assert(s@ =~= MANUFACTURER@ + seq!['-'] + self.site_id@ + seq!['-'] + self.device_id@);
        s.slug()
    }

    pub fn object_id(&self) -> (r: String)
        ensures
            r@ == device_object_id(*self),
    {
        let mut s = String::from_str(MANUFACTURER);
        s.push('_');
        push_all(&mut s, self.device_type.as_str());
        s.push('_');
        push_all(&mut s, self.name().as_str());
        assert(s@ =~= MANUFACTURER@ + seq!['_'] + self.device_type@ + seq!['_'] + device_name(*self));
        s.slug()
    }

    pub fn topic_prefix(&self) -> (r: String)
        ensures
            r@ == device_topic_prefix(*self),
    {
        let mut s = String::from_str("somfy-protect/");
        push_all(&mut s, self.unique_id().as_str());
        s
    }

    pub fn state_topic(&self) -> (r: String)
        ensures
            r@ == device_topic_prefix(*self) + "/state"@,
    {
        let mut s = self.topic_prefix();
        push_all(&mut s, "/state");
        s
    }

    /// The manufacturer and the model that the definition label names.
    pub fn manufacturer_and_model(&self) -> (r: (String, String))
        ensures
            (r.0@, r.1@) == manufacturer_and_model(self.definition_label@),
    {
        let label = self.definition_label.as_str();
        let n = label.unicode_len();
        let mut p: usize = 0;
        while p < n && label.get_char(p) != ' '
            invariant
                n == label@.len(),
                p <= n,
                forall|j: int| 0 <= j < p ==> label@[j] != ' ',
            decreases n - p,
        {
            p = p + 1;
        }
        proof {
            if p < n {
                assert(exists|i: int| 0 <= i < label@.len() && label@[i] == ' ');
                let c = choose|i: int|
                    0 <= i < label@.len() && label@[i] == ' ' && forall|j: int| 0 <= j < i ==> label@[j] != ' ';
                assert(0 <= p && label@[p as int] == ' ' && forall|j: int| 0 <= j < p ==> label@[j] != ' ');
                if c < p {
                    assert(label@[c] != ' ');
                } else if c > p {
                    assert(label@[p as int] != ' ');
                }
                assert(first_space(label@) == Some(p as int));
            } else {
                assert(!exists|i: int| 0 <= i < label@.len() && label@[i] == ' ');
            }
        }
        if p < n {
            let head = label.substring_char(0, p);
            if text_eq(head, MANUFACTURER) || text_eq(head, ALT_MANUFACTURER) {
                return (String::from_str(head), String::from_str(label.substring_char(p + 1, n)));
            }
        }
        (String::from_str(MANUFACTURER), self.definition_label.clone())
    }
}

pub open spec fn text_option(o: Option<String>) -> Option<Seq<char>> {
    match o {
        Some(s) => Some(s@),
        None => None,
    }
}

/// A device of an alarm site, with the device through which it is reached.
pub struct SiteDevice<D> {
    pub device_id: String,
    pub device: D,
    pub via_device: Option<String>,
}

impl<D> SiteDevice<D> {
    pub open spec fn view(&self) -> (Seq<char>, D, Option<Seq<char>>) {
        (self.device_id@, self.device, text_option(self.via_device))
    }
}

/// `devices` after a box device `box_id` joined the site, when `box_id` is
/// some: every device is then reached through it.
pub open spec fn through_box<D>(
    devices: Seq<(Seq<char>, D, Option<Seq<char>>)>,
    box_id: Option<Seq<char>>,
) -> Seq<(Seq<char>, D, Option<Seq<char>>)> {
    match box_id {
        Some(b) => devices.map_values(|e: (Seq<char>, D, Option<Seq<char>>)| (e.0, e.1, Some(b))),
        None => devices,
    }
}

/// The devices of one alarm site, in the order they were first seen. The
/// site's box, once seen, is the device through which all others are reached.
pub struct SiteDevices<D> {
    box_device_id: Option<String>,
    devices: Vec<SiteDevice<D>>,
}

impl<D> SiteDevices<D> {
    pub closed spec fn box_device(&self) -> Option<Seq<char>> {
        text_option(self.box_device_id)
    }

    pub closed spec fn view(&self) -> Seq<(Seq<char>, D, Option<Seq<char>>)> {
        self.devices@.map_values(|e: SiteDevice<D>| e.view())
    }

    pub open spec fn contains(&self, device_id: Seq<char>) -> bool {
        exists|i: int| 0 <= i < self.view().len() && #[trigger] self.view()[i].0 == device_id
    }

    pub fn new() -> (r: SiteDevices<D>)
        ensures
            r.box_device() is None,
            r.view() == Seq::<(Seq<char>, D, Option<Seq<char>>)>::empty(),
    {
        let r = SiteDevices { box_device_id: None, devices: Vec::new() };
        assert(r.view() =~= Seq::<(Seq<char>, D, Option<Seq<char>>)>::empty());
        r
    }

    /// The devices, in the order they were first seen.
    pub fn devices(&self) -> (r: &Vec<SiteDevice<D>>)
        ensures
            r@.map_values(|e: SiteDevice<D>| e.view()) == self.view(),
    {
        &self.devices
    }

    /// Takes a device seen on the site. A box becomes the device through which
    /// every device of the site is reached. A device not seen before joins
    /// the site, reached through the box if one is known; one already known
    /// is kept as it was first seen.
    pub fn add_device(&mut self, device_id: String, is_box: bool, device: D)
        ensures
            final(self).box_device() == if is_box {
                Some(device_id@)
            } else {
                old(self).box_device()
            },
            ({
                let updated = through_box(
                    old(self).view(),
                    if is_box {
                        Some(device_id@)
                    } else {
                        None
                    },
                );
                if old(self).contains(device_id@) {
                    final(self).view() == updated
                } else {
                    final(self).view() == updated.push((device_id@, device, final(self).box_device()))
                }
            }),
    {
        let ghost old_view = self.view();
        if is_box {
            self.box_device_id = Some(device_id.clone());
            let n = self.devices.len();
            let mut i: usize = 0;
            while i < n
                invariant
                    n == self.devices@.len(),
                    n == old_view.len(),
                    i <= n,
                    self.box_device_id == Some(device_id),
                    forall|j: int| 0 <= j < i ==> #[trigger] self.devices@[j].view() == (
                        old_view[j].0,
                        old_view[j].1,
                        Some(device_id@),
                    ),
                    forall|j: int| i <= j < n ==> #[trigger] self.devices@[j].view() == old_view[j],
                decreases n - i,
            {
                let ghost before = self.devices@[i as int];
                assert(before.view() == old_view[i as int]);
                let via = device_id.clone();
                let entry = &mut self.devices[i];
                entry.via_device = Some(via);
                assert(text_option(self.devices@[i as int].via_device) == Some(device_id@));
                assert(self.devices@[i as int].device_id == before.device_id);
                assert(self.devices@[i as int].device == before.device);
                assert(self.devices@[i as int].view() == (
                    old_view[i as int].0,
                    old_view[i as int].1,
                    Some(device_id@),
                ));
                i = i + 1;
            }
            assert(self.view() =~= through_box(old_view, Some(device_id@)));
        } else {
            assert(self.view() =~= through_box(old_view, None));
        }
        let ghost updated = self.view();
        assert forall|j: int| 0 <= j < updated.len() implies #[trigger] updated[j].0 == old_view[j].0 by {
        }
        let position = self.position(&device_id);
        if position.is_none() {
            assert forall|j: int| 0 <= j < old_view.len() implies #[trigger] old_view[j].0 != device_id@ by {
                assert(updated[j].0 == self.devices@[j].device_id@);
            }
            let via = self.box_device_id.clone();
            self.devices.push(SiteDevice { device_id, device, via_device: via });
            assert(self.view() =~= updated.push(self.devices@.last().view()));
        } else {
            let k = position.unwrap();
            assert(updated[k as int].0 == self.devices@[k as int].device_id@);
            assert(old_view[k as int].0 == device_id@);
            assert(old(self).view()[k as int].0 == device_id@);
        }
    }

    fn position(&self, device_id: &String) -> (r: Option<usize>)
        ensures
            match r {
                Some(k) => k < self.devices@.len() && self.devices@[k as int].device_id@ == device_id@,
                None => forall|j: int| 0 <= j < self.devices@.len() ==> self.devices@[j].device_id@ != device_id@,
            },
    {
        let mut k: usize = 0;
        while k < self.devices.len()
            invariant
                k <= self.devices@.len(),
                forall|j: int| 0 <= j < k ==> self.devices@[j].device_id@ != device_id@,
            decreases self.devices@.len() - k,
        {
            if self.devices[k].device_id == *device_id {
                return Some(k);
            }
            k = k + 1;
        }
        None
    }
}

} // verus!
