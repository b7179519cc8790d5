//! Volume and device identity, and mount-point post-processing.

use vstd::prelude::*;

verus! {

use vstd::string::StrSliceExecFns;

/// The view of the DOS-device prefix `\DosDevices\`.
pub open spec fn dos_prefix() -> Seq<char> {
    "\\DosDevices\\"@
}

/// Whether a mount-point name carries the DOS-device prefix.
pub open spec fn has_dos_prefix(s: Seq<char>) -> bool {
    s.len() >= 12 && s.subrange(0, 12) == dos_prefix()
}

/// The user-visible paths among a listing of mount-point names: those
/// with the DOS-device prefix, with the prefix stripped, in order.
pub open spec fn dos_paths_spec(points: Seq<Seq<char>>) -> Seq<Seq<char>>
    decreases points.len(),
{
    if points.len() == 0 {
        seq![]
    } else {
        dos_paths_spec(points.drop_last()) + (if has_dos_prefix(points.last()) {
            seq![points.last().subrange(12, points.last().len() as int)]
        } else {
            seq![]
        })
    }
}

/// Strip the DOS-device prefix from a mount-manager symbolic link,
/// yielding the user-visible path (for example `C:`).
pub fn find_dos_path(input: &str) -> (r: Option<&str>)
    ensures
        r is Some <==> has_dos_prefix(input@),
        r is Some ==> r->Some_0@ == input@.subrange(12, input@.len() as int),
{
    let prefix = "\\DosDevices\\";
    proof {
        reveal_strlit("\\DosDevices\\");
    }
    let n = input.unicode_len();
    if n < 12 {
        return None;
    }
    let mut i: usize = 0;
    while i < 12
        invariant
            0 <= i <= 12,
            12 <= n == input@.len(),
            prefix@ == dos_prefix(),
            prefix@.len() == 12,
            forall|j: int| 0 <= j < i ==> input@[j] == prefix@[j],
        decreases 12 - i,
    {
        let c = input.get_char(i);
        let e = prefix.get_char(i);
        if c != e {
            proof {
                assert(input@.subrange(0, 12) != prefix@) by {
                    assert(input@.subrange(0, 12)[i as int] != prefix@[i as int]);
                }
            }
            return None;
        }
        i = i + 1;
    }
    proof {
        assert(input@.subrange(0, 12) =~= prefix@);
    }
    Some(input.substring_char(12, n))
}

/// Keep the names with the DOS-device prefix, stripped of it.
pub fn filter_dos_paths(points: &Vec<String>) -> (r: Vec<String>)
    ensures
        r.deep_view() == dos_paths_spec(points.deep_view()),
{
    let mut r: Vec<String> = Vec::new();
    let mut i: usize = 0;
    proof {
        assert(points.deep_view().subrange(0, 0) =~= Seq::<Seq<char>>::empty());
        assert(dos_paths_spec(Seq::<Seq<char>>::empty()) == Seq::<Seq<char>>::empty());
        assert(r.deep_view() =~= Seq::<Seq<char>>::empty());
    }
    while i < points.len()
        invariant
            0 <= i <= points@.len(),
            points@.len() == points.deep_view().len(),
            r.deep_view() == dos_paths_spec(points.deep_view().subrange(0, i as int)),
        decreases points@.len() - i,
    {
        let ghost pre = r.deep_view();
        let ghost prefix_pts = points.deep_view().subrange(0, i as int);
        proof {
            assert(points.deep_view()[i as int] == points@[i as int]@);
            assert(points.deep_view().subrange(0, i + 1).drop_last() =~= prefix_pts);
            assert(points.deep_view().subrange(0, i + 1).last() == points.deep_view()[i as int]);
        }
        match find_dos_path(points[i].as_str()) {
            Some(s) => {
                let owned = s.to_owned();
                r.push(owned);
                proof {
                    assert forall|j: int| 0 <= j < r@.len() implies r.deep_view()[j] == pre.push(
                        owned@,
                    )[j] by {
                        assert(r.deep_view()[j] == r@[j]@);
                    }
                    assert(r.deep_view() =~= pre.push(owned@));
                    assert(r.deep_view() =~= dos_paths_spec(
                        points.deep_view().subrange(0, i + 1),
                    ));
                }
            },
            None => {
                proof {
                    assert(dos_paths_spec(points.deep_view().subrange(0, i + 1)) =~= pre);
                }
            },
        }
        i = i + 1;
    }
    proof {
        assert(points.deep_view().subrange(0, points.deep_view().len() as int)
            =~= points.deep_view());
    }
    r
}

/// The session-stable name of a volume, like `\\?\Volume{...}`.
#[derive(Debug, Clone, PartialEq, Eq, Hash)]
pub struct VolumeName {
    /// The volume's non-persistent name.
    pub name: String,
}

impl VolumeName {
    /// The volume's name.
    pub fn name(&self) -> (r: &str)
        ensures
            r@ == self.name@,
    {
        self.name.as_str()
    }

    /// The user-visible paths of this volume, given the mount-point
    /// names the mount manager reports for its device.
    pub fn dos_paths(&self, points: &Vec<String>) -> (r: Vec<String>)
        ensures
            r.deep_view() == dos_paths_spec(points.deep_view()),
    {
        filter_dos_paths(points)
    }
}

impl VolumeName {
    /// The device name of the volume, decoded from the name-query
    /// reply its handle returned.  Succeeds exactly when the reply is
    /// well shaped and its payload is well-formed UTF-16.
    pub fn device_name(&self, reply: &Vec<u8>) -> (r: Result<DeviceName, crate::errors::Error>)
        ensures
            r is Ok <==> {
                &&& reply@.len() >= 2
                &&& 2 + 2 * (crate::mount::le16_at(reply@, 0) / 2) <= reply@.len()
                &&& crate::mount::utf16_wf(
                    crate::mount::u16s_at(
                        reply@,
                        2,
                        (crate::mount::le16_at(reply@, 0) / 2) as nat,
                    ),
                )
            },
            r matches Ok(d) ==> d.0@ == crate::mount::utf16_decoded(
                crate::mount::u16s_at(
                    reply@,
                    2,
                    (crate::mount::le16_at(reply@, 0) / 2) as nat,
                ),
            ),
            r is Err ==> (r->Err_0 == crate::errors::Error::Overflow || r->Err_0
                == crate::errors::Error::DecodeUtf16Error),
    {
        let units = match crate::mount::parse_mountdev_name(reply) {
            Ok(u) => u,
            Err(e) => {
                return Err(e);
            },
        };
        match crate::mount::decode_utf16_strict(&units) {
            Ok(s) => Ok(DeviceName(s)),
            Err(e) => Err(e),
        }
    }
}

impl crate::shell::FileSystem for VolumeName {
    fn name(&self) -> &str {
        self.name.as_str()
    }
}

/// The resolved device name of a volume, like `\Device\HarddiskVolume3`.
#[derive(Debug, Clone, PartialEq, Eq, Hash)]
pub struct DeviceName(pub String);

impl DeviceName {
    /// The device's name.
    pub fn name(&self) -> (r: &str)
        ensures
            r@ == self.0@,
    {
        self.0.as_str()
    }

    /// The user-visible paths of this device, given the mount-point
    /// names the mount manager reports for it.
    pub fn dos_paths(&self, points: &Vec<String>) -> (r: Vec<String>)
        ensures
            r.deep_view() == dos_paths_spec(points.deep_view()),
    {
        filter_dos_paths(points)
    }
}

impl crate::shell::Device for DeviceName {
    fn name(&self) -> &str {
        self.0.as_str()
    }
}

} // verus!
