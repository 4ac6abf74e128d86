use vstd::prelude::*;
use vstd::string::StringExecFns;
use crate::recording::{decimal, push_decimal};

verus! {

/// What device enumeration reports of one device: its driver and, where
/// present, the keys its display name is made of.
#[derive(Debug)]
pub struct DeviceArgs {
    pub driver: String,
    pub index: Option<String>,
    pub soapy_driver: Option<String>,
    pub label: Option<String>,
}

/// Display name of a device: RTL-SDR devices add their index, Soapy devices
/// their Soapy driver and label; `None` when such a key is missing.
pub open spec fn name_of(args: DeviceArgs) -> Option<Seq<char>> {
    if args.driver@ == "rtlsdr"@ {
        match args.index {
            Some(i) => Some(args.driver@ + " "@ + i@),
            None => None,
        }
    } else if args.driver@ == "soapy"@ {
        match (args.soapy_driver, args.label) {
            (Some(d), Some(l)) => Some(args.driver@ + " "@ + d@ + " "@ + l@),
            _ => None,
        }
    } else {
        Some(args.driver@)
    }
}

pub fn get_name(args: &DeviceArgs) -> (r: Option<String>)
    ensures
        r is Some == name_of(*args) is Some,
        r is Some ==> r->0@ == name_of(*args)->0,
{
    let rtl = String::from_str("rtlsdr");
    let soapy = String::from_str("soapy");
    if args.driver == rtl {
        match &args.index {
            Some(i) => {
                let mut name = args.driver.clone();
                name.append(" ");
                name.append(i.as_str());
                Some(name)
            },
            None => None,
        }
    } else if args.driver == soapy {
        match (&args.soapy_driver, &args.label) {
            (Some(d), Some(l)) => {
                let mut name = args.driver.clone();
                name.append(" ");
                name.append(d.as_str());
                name.append(" ");
                name.append(l.as_str());
                Some(name)
            },
            _ => None,
        }
    } else {
        Some(args.driver.clone())
    }
}

/// Entries of the device list: each name prefixed with its position,
/// `"<index> | <name>"`.
pub fn get_sdr_names(names: &Vec<String>) -> (r: Vec<String>)
    ensures
        r@.len() == names@.len(),
        forall|i: int|
            0 <= i < r@.len() ==> (#[trigger] r@[i])@ == decimal(i as nat) + " | "@ + names@[i]@,
{
    let mut r: Vec<String> = Vec::new();
    let mut i: usize = 0;
    while i < names.len()
        invariant
            i <= names@.len(),
            r@.len() == i,
            forall|j: int|
                0 <= j < i ==> (#[trigger] r@[j])@ == decimal(j as nat) + " | "@ + names@[j]@,
        decreases names@.len() - i,
    {
        let mut entry = String::new();
        push_decimal(&mut entry, i as u64);
        entry.append(" | ");
        entry.append(names[i].as_str());
        assert(entry@ =~= decimal(i as nat) + " | "@ + names@[i as int]@);
        r.push(entry);
        i = i + 1;
    }
    r
}

/// `n` with at least two digits.
pub open spec fn two_digits(n: nat) -> Seq<char> {
    if n < 10 {
        seq!['0'] + decimal(n)
    } else {
        decimal(n)
    }
}

fn push_two_digits(out: &mut String, n: u64)
    ensures
        final(out)@ == old(out)@ + two_digits(n as nat),
{
    if n < 10 {
        out.append("0");
        proof {
            reveal_strlit("0");
        }
    }
    push_decimal(out, n);
    assert(final(out)@ =~= old(out)@ + two_digits(n as nat));
}

/// Label shown while recording: `"Recording: HH:MM:SS"` for `secs` seconds.
pub fn recording_label(secs: u64) -> (r: String)
    ensures
        r@ == "Recording: "@ + two_digits(secs as nat / 3600) + ":"@ + two_digits(
            (secs as nat % 3600) / 60,
        ) + ":"@ + two_digits(secs as nat % 60),
{
    let hours = secs / 3600;
    let rest = secs - hours * 3600;
    let mut out = String::from_str("Recording: ");
    push_two_digits(&mut out, hours);
    out.append(":");
    push_two_digits(&mut out, rest / 60);
    out.append(":");
    push_two_digits(&mut out, rest % 60);
    assert(rest == secs % 3600);
    assert(rest % 60 == secs % 60) by (nonlinear_arith)
        requires
            rest == secs - hours * 3600,
            hours == secs / 3600,
    ;
    assert(out@ =~= "Recording: "@ + two_digits(secs as nat / 3600) + ":"@ + two_digits(
        (secs as nat % 3600) / 60,
    ) + ":"@ + two_digits(secs as nat % 60));
    out
}

/// One step of a counter setting: down stops at 1, up stops at the largest
/// `usize`.
pub fn step_setting(value: usize, up: bool) -> (r: usize)
    ensures
        up ==> r == if value < usize::MAX {
            value + 1
        } else {
            value as int
        },
        !up ==> r == if value > 1 {
            value - 1
        } else {
            value as int
        },
{
    if up {
        if value < usize::MAX {
            value + 1
        } else {
            value
        }
    } else if value > 1 {
        value - 1
    } else {
        value
    }
}

} // verus!
