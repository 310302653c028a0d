use crate::errors::MicError;
use vstd::prelude::*;

verus! {

// Device listing and selection. Enumeration itself is the host's work; what
// is verified here is the shape of the list handed to the host — the system
// default first, every enumerated device once, de-duplicated by name — and
// which device a start request resolves to.

/// One input device as reported to the host.
#[derive(Clone, Debug)]
pub struct MicDeviceInfo {
    /// `"default"` for the system default entry, else the device's name.
    pub id: String,
    /// The device's reported name.
    pub name: String,
    /// Whether this entry is the system default.
    pub is_default: bool,
}

/// The names of the listed devices, in order.
pub open spec fn device_names(list: Seq<MicDeviceInfo>) -> Seq<Seq<char>> {
    Seq::new(list.len(), |i: int| list[i].name@)
}

/// The enumerated names with every name already in `seen`, and every
/// repetition, dropped; first occurrences keep their order.
pub open spec fn dedup_names(seen: Seq<Seq<char>>, names: Seq<Seq<char>>) -> Seq<Seq<char>>
    decreases names.len(),
{
    if names.len() == 0 {
        Seq::<Seq<char>>::empty()
    } else if seen.contains(names[0]) {
        dedup_names(seen, names.skip(1))
    } else {
        seq![names[0]] + dedup_names(seen.push(names[0]), names.skip(1))
    }
}

/// Whether some listed device already carries this name.
fn list_has_name(list: &Vec<MicDeviceInfo>, name: &String) -> (r: bool)
    ensures
        r == device_names(list@).contains(name@),
{
    let mut i: usize = 0;
    while i < list.len()
        invariant
            0 <= i <= list@.len(),
            forall|j: int| 0 <= j < i ==> device_names(list@)[j] != name@,
        decreases list@.len() - i,
    {
        if list[i].name == *name {
            assert(device_names(list@)[i as int] == name@);
            return true;
        }
        i = i + 1;
    }
    assert(forall|j: int| 0 <= j < list@.len() ==> device_names(list@)[j] != name@);
    false
}

/// Builds the device list for the host from the default device's name (if
/// one exists) and the enumerated names: the default entry first, then each
/// enumerated name once, in order, de-duplicated by name against the list.
pub fn assemble_device_list(default_name: Option<String>, names: Vec<String>) -> (out: Vec<
    MicDeviceInfo,
>)
    ensures
        ({
            let seen0: Seq<Seq<char>> = match default_name {
                Some(d) => seq![d@],
                None => Seq::<Seq<char>>::empty(),
            };
            let rest = dedup_names(seen0, names.deep_view());
            &&& out@.len() == seen0.len() + rest.len()
            &&& (match default_name {
                Some(d) => out@[0].name@ == d@ && out@[0].is_default && out@[0].id@ == "default"@,
                None => true,
            })
            &&& forall|j: int|
                seen0.len() <= j < out@.len() ==> (#[trigger] out@[j]).name@ == rest[j
                    - seen0.len()] && out@[j].id@ == rest[j - seen0.len()] && !out@[j].is_default
        }),
{
    let ghost names_dv = names.deep_view();
    let mut out: Vec<MicDeviceInfo> = Vec::new();
    let ghost seen0: Seq<Seq<char>> = match &default_name {
        Some(d) => seq![d@],
        None => Seq::<Seq<char>>::empty(),
    };
    match default_name {
        Some(d) => {
            out.push(MicDeviceInfo { id: String::from_str("default"), name: d, is_default: true });
            assert(device_names(out@) =~= seen0);
        },
        None => {
            assert(device_names(out@) =~= seen0);
        },
    }
    let base = out.len();
    let mut j: usize = 0;
    proof {
        assert(names_dv.skip(0) =~= names_dv);
        assert(device_names(out@).skip(base as int) =~= Seq::<Seq<char>>::empty());
    }
    while j < names.len()
        invariant
            0 <= j <= names@.len(),
            names_dv == names.deep_view(),
            names_dv.len() == names@.len(),
            base == seen0.len(),
            out@.len() >= base,
            device_names(out@).take(base as int) =~= seen0,
            (match default_name {
                Some(d) => out@.len() >= 1 && out@[0].name@ == d@ && out@[0].is_default
                    && out@[0].id@ == "default"@,
                None => true,
            }),
            forall|l: int|
                base <= l < out@.len() ==> (#[trigger] out@[l]).id@ == out@[l].name@
                    && !out@[l].is_default,
            dedup_names(seen0, names_dv) =~= device_names(out@).skip(base as int) + dedup_names(
                device_names(out@),
                names_dv.skip(j as int),
            ),
        decreases names@.len() - j,
    {
        let name = names[j].clone();
        proof {
            assert(names_dv.skip(j as int)[0] == names_dv[j as int]);
            assert(names_dv[j as int] == names@[j as int]@);
            assert(names_dv.skip(j as int).skip(1) =~= names_dv.skip(j + 1));
        }
        if !list_has_name(&out, &name) {
            let ghost old_out = out@;
            out.push(MicDeviceInfo { id: name.clone(), name, is_default: false });
            proof {
                assert(device_names(out@) =~= device_names(old_out).push(names_dv[j as int]));
                assert(device_names(out@).take(base as int) =~= device_names(old_out).take(
                    base as int,
                ));
                assert(device_names(out@).skip(base as int) =~= device_names(old_out).skip(
                    base as int,
                ) + seq![names_dv[j as int]]);
                assert(dedup_names(seen0, names_dv) =~= device_names(out@).skip(base as int)
                    + dedup_names(device_names(out@), names_dv.skip(j + 1)));
            }
        }
        j = j + 1;
    }
    proof {
        assert(names_dv.skip(names_dv.len() as int) =~= Seq::<Seq<char>>::empty());
        assert(dedup_names(seen0, names_dv) =~= device_names(out@).skip(base as int));
    }
    out
}

/// How a start request resolves its device.
#[derive(Clone, Copy, Debug, PartialEq, Eq, Structural)]
pub enum DeviceChoice {
    /// The enumerated device at this index was requested by name.
    Named(usize),
    /// The system default device is used.
    SystemDefault,
}

/// Resolves a requested device name against the enumerated names. A request
/// for anything but `"default"` picks the first enumerated device of that
/// name; everything else — no request, `"default"`, or a name that is not
/// found — falls back to the system default, and fails with
/// `NoDeviceAvailable` exactly when none exists.
pub fn select_device(requested: &Option<String>, available: &Vec<String>, has_default: bool) -> (r:
    Result<DeviceChoice, MicError>)
    ensures
        match r {
            Ok(DeviceChoice::Named(i)) => {
                &&& requested matches Some(q) && q@ != "default"@
                &&& i < available@.len()
                &&& available@[i as int]@ == requested->Some_0@
                &&& forall|l: int| 0 <= l < i ==> available@[l]@ != requested->Some_0@
            },
            Ok(DeviceChoice::SystemDefault) => {
                &&& has_default
                &&& (match requested {
                    Some(q) => q@ == "default"@ || (forall|l: int|
                        0 <= l < available@.len() ==> available@[l]@ != q@),
                    None => true,
                })
            },
            Err(e) => {
                &&& e == MicError::NoDeviceAvailable
                &&& !has_default
                &&& (match requested {
                    Some(q) => q@ == "default"@ || (forall|l: int|
                        0 <= l < available@.len() ==> available@[l]@ != q@),
                    None => true,
                })
            },
        },
{
    match requested {
        Some(name) => {
            let default_label = String::from_str("default");
            if !(*name == default_label) {
                let mut i: usize = 0;
                while i < available.len()
                    invariant
                        0 <= i <= available@.len(),
                        requested matches Some(q) && q@ == name@,
                        name@ != "default"@,
                        forall|l: int| 0 <= l < i ==> available@[l]@ != name@,
                    decreases available@.len() - i,
                {
                    if available[i] == *name {
                        return Ok(DeviceChoice::Named(i));
                    }
                    i = i + 1;
                }
            }
            if has_default {
                Ok(DeviceChoice::SystemDefault)
            } else {
                Err(MicError::NoDeviceAvailable)
            }
        },
        None => {
            if has_default {
                Ok(DeviceChoice::SystemDefault)
            } else {
                Err(MicError::NoDeviceAvailable)
            }
        },
    }
}

} // verus!
