//! Device-side decisions: the PWM duty cycles the LED channels are driven
//! with, and which of the scanned Wi-Fi networks to join.
use vstd::prelude::*;

verus! {

/// Duty cycles for an LED's three channels at 8-bit resolution, from the
/// channel levels after gamma correction: one above each level.
pub fn duty_cycles(levels: [u8; 3]) -> (r: [u32; 3])
    ensures
        forall|i: int| 0 <= i < 3 ==> r[i] == levels[i] + 1,
{
    [1 + levels[0] as u32, 1 + levels[1] as u32, 1 + levels[2] as u32]
}

/// Duty cycles for an LED's three channels driven with raw levels (no gamma
/// correction): the channels sink current, so each is 255 minus its level.
pub fn raw_duty_cycles(rgb: [u8; 3]) -> (r: [u32; 3])
    ensures
        forall|i: int| 0 <= i < 3 ==> r[i] == 255 - rgb[i],
{
    [255 - rgb[0] as u32, 255 - rgb[1] as u32, 255 - rgb[2] as u32]
}

/// The networks the device knows: `None` for an unknown name, otherwise the
/// password to join with (`None` for an open network).
pub open spec fn known_network(ssid: Seq<char>) -> Option<Option<&'static str>> {
    if ssid == "WifiCR"@ {
        Some(Some("CR2546938"))
    } else if ssid == "UTN_LIBRE"@ {
        Some(None)
    } else {
        None
    }
}

/// Whether two strings hold the same characters, compared by their bytes.
fn same_text(a: &str, b: &str) -> (r: bool)
    ensures
        r == (a@ == b@),
{
    let x = a.as_bytes();
    let y = b.as_bytes();
    proof {
        vstd::utf8::encode_utf8_decode_utf8(a@);
        vstd::utf8::encode_utf8_decode_utf8(b@);
    }
    if x.len() != y.len() {
        return false;
    }
    let mut i: usize = 0;
    while i < x.len()
        invariant
            x@ == vstd::utf8::encode_utf8(a@),
            y@ == vstd::utf8::encode_utf8(b@),
            vstd::utf8::decode_utf8(x@) == a@,
            vstd::utf8::decode_utf8(y@) == b@,
            x@.len() == y@.len(),
            i <= x@.len(),
            forall|j: int| 0 <= j < i ==> x@[j] == y@[j],
        decreases x@.len() - i,
    {
        if x[i] != y[i] {
            return false;
        }
        i = i + 1;
    }
    assert(x@ =~= y@);
    true
}

/// Looks a scanned network name up among the known networks.
pub fn network_password(ssid: &str) -> (r: Option<Option<&'static str>>)
    ensures
        r == known_network(ssid@),
{
    if same_text(ssid, "WifiCR") {
        Some(Some("CR2546938"))
    } else if same_text(ssid, "UTN_LIBRE") {
        Some(None)
    } else {
        None
    }
}

/// Picks the first known network among scanned names, in scan order, with
/// the password to join it; `None` when no name is known.
pub fn choose_network(ssids: &[&str]) -> (r: Option<(usize, Option<&'static str>)>)
    ensures
        match r {
            Some((i, password)) => {
                &&& i < ssids@.len()
                &&& known_network(ssids@[i as int]@) == Some(password)
                &&& forall|j: int| 0 <= j < i ==> known_network(#[trigger] ssids@[j]@) is None
            },
            None => forall|j: int| 0 <= j < ssids@.len() ==> known_network(#[trigger] ssids@[j]@) is None,
        },
{
    let mut i: usize = 0;
    while i < ssids.len()
        invariant
            i <= ssids@.len(),
            forall|j: int| 0 <= j < i ==> known_network(#[trigger] ssids@[j]@) is None,
        decreases ssids@.len() - i,
    {
        match network_password(ssids[i]) {
            Some(password) => {
                return Some((i, password));
            },
            None => {},
        }
        i = i + 1;
    }
    None
}

} // verus!
