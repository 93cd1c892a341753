//! The vSMB (SMB-over-VMBus) device and its resources.
//!
//! The device offers the Hyper-V vSMB VMBus channel (so the inbox Windows SMB
//! redirector binds to it) and serves each channel that the guest opens.
//! DirectMap / RDMA-v2 is deferred: version negotiation masks the RDMA-v2
//! capability, but the pipe is still offered with the GPA-direct flag set (the
//! inbox redirector requires it).

use crate::connection::{Connection, ConnectionState, Phase};
use crate::protocol::{INSTANCE, INTERFACE_TYPE};
use crate::server::model::ServerState;
use crate::server::{
    config_views, exposed_shares, law_configured_shares_are_exposed, law_exposed_names, Share,
    ShareConfig, Smb2Server,
};
use crate::text::lowercase;
use vstd::prelude::*;

verus! {

/// The resource id of [`VsmbDeviceHandle`].
pub const VSMB_RESOURCE_ID: &'static str = "vsmb";

/// The resource id of [`VmbfsBootDeviceHandle`].
pub const VMBFS_BOOT_RESOURCE_ID: &'static str = "vmbfs-boot";

/// The resource id of a vmbfs device that provides an IMC hive to the Windows
/// boot loader.
pub const VMBFS_IMC_RESOURCE_ID: &'static str = "vmbfs-imc";

/// The name of the channel interface.
pub const INTERFACE_NAME: &'static str = "vsmb";

/// A single share exposed to the guest by the vSMB device.
#[derive(Clone, Debug)]
pub struct VsmbShare {
    /// The share name, as it appears in the guest UNC path
    /// (`\\?\VMSMB\VSMB-{instance}\<name>`).
    pub name: String,
    /// The host directory backing the share.
    pub path: String,
    /// Whether the share is read-only (image layers) or read-write (host
    /// mounts).
    pub read_only: bool,
}

/// A handle to a vSMB device.
pub struct VsmbDeviceHandle {
    /// The shares to expose.
    pub shares: Vec<VsmbShare>,
}

/// A handle to a vmbfs device for booting the guest over vmbfs (the BOOT
/// instance): serves a host directory tree of OS/boot files read-only, so the
/// Hyper-V UEFI firmware can load `bootmgfw.efi` and boot from it.
pub struct VmbfsBootDeviceHandle {
    /// The host directory whose contents are served read-only (e.g. a WCOW
    /// image layer's `UtilityVM\Files`).
    pub files_dir: String,
}

/// The saved state for the vSMB device. There is no state to preserve: the
/// channel is revoked and re-offered on restore.
pub struct SavedState {}

/// What a device offers to the guest.
pub struct Offer {
    /// The name of the interface.
    pub interface_name: String,
    /// The interface GUID.
    pub interface_id: u128,
    /// The instance GUID.
    pub instance_id: u128,
    /// Whether the pipe is in message mode.
    pub message_mode: bool,
    /// Whether the pipe is offered with GPA-direct.
    pub gpa_direct: bool,
}

/// The names and directories of a list of shares.
pub open spec fn share_views(shares: Seq<VsmbShare>) -> Seq<ShareConfig> {
    Seq::new(shares.len(), |i: int| ShareConfig { name: shares[i].name@, root: shares[i].path@ })
}

/// A vSMB device.
pub struct VsmbDevice {
    shares: Vec<VsmbShare>,
}

impl VsmbDevice {
    /// The shares that the device exposes.
    pub closed spec fn shares(&self) -> Seq<VsmbShare> {
        self.shares@
    }

    /// Creates a new vSMB device exposing the given shares.
    pub fn new(shares: Vec<VsmbShare>) -> (r: VsmbDevice)
        ensures
            r.shares() == shares@,
    {
        VsmbDevice { shares }
    }

    /// How many shares the device was given.
    pub fn share_count(&self) -> (r: usize)
        ensures
            r == self.shares().len(),
    {
        self.shares.len()
    }

    /// What the device offers to the guest: a byte-mode pipe with GPA-direct
    /// enabled, to match the offer the inbox redirector expects.
    pub fn offer(&self) -> (r: Offer)
        ensures
            r.interface_name@ == INTERFACE_NAME@,
            r.interface_id == INTERFACE_TYPE,
            r.instance_id == INSTANCE,
            !r.message_mode,
            r.gpa_direct,
    {
        Offer {
            interface_name: INTERFACE_NAME.to_owned(),
            interface_id: INTERFACE_TYPE,
            instance_id: INSTANCE,
            message_mode: false,
            gpa_direct: true,
        }
    }

    /// Opens a channel: a connection served from the device's shares, and from
    /// `empty_dir` for the built-in keepalive share.
    pub fn open(&self, empty_dir: &str) -> (r: Connection)
        ensures
            r.wf(),
            r@ == (ConnectionState {
                server: ServerState::initial(
                    exposed_shares(share_views(self.shares()), empty_dir@),
                ),
                pending: None,
                negotiated: false,
                phase: Phase::Header,
            }),
    {
        let mut shares: Vec<(String, Share)> = Vec::new();
        let mut i: usize = 0;
        while i < self.shares.len()
            invariant
                i <= self.shares@.len(),
                shares@.len() == i,
                forall|k: int|
                    0 <= k < i ==> (#[trigger] shares@[k]).0@ == self.shares@[k].name@
                        && shares@[k].1.root@ == self.shares@[k].path@,
            decreases self.shares@.len() - i,
        {
            let share = &self.shares[i];
            shares.push((share.name.clone(), Share { root: share.path.clone() }));
            i = i + 1;
        }
        assert(config_views(shares@) =~= share_views(self.shares()));
        Connection::new(Smb2Server::new(shares, empty_dir))
    }
}

/// Resolver for the vSMB device.
pub struct VsmbResolver;

impl VsmbResolver {
    /// Resolves a device handle to the device that it describes.
    pub fn resolve(&self, resource: VsmbDeviceHandle) -> (r: VsmbDevice)
        ensures
            r.shares() == resource.shares@,
    {
        VsmbDevice::new(resource.shares)
    }
}

/// What the guest's redirector is offered: the vSMB interface and instance, as a
/// pipe of bytes with GPA-direct.
pub proof fn law_offer(device: VsmbDevice, offer: Offer)
    requires
        call_ensures(VsmbDevice::offer, (&device,), offer),
    ensures
        offer.interface_name@ == "vsmb"@,
        offer.interface_id == 0x4d12e519_17a0_4ae4_8eaa_5270fc6abdb7,
        offer.instance_id == 0xdcc079ae_60ba_4d07_847c_3493609c0870,
        !offer.message_mode,
        offer.gpa_direct,
{
}

/// A channel is served from the shares that the device was given, each under its
/// name and from its path, and from the empty directory for the keepalive share.
pub proof fn law_channel_serves_the_shares(
    shares: Vec<VsmbShare>,
    device: VsmbDevice,
    empty_dir: &str,
    r: Connection,
    i: int,
)
    requires
        call_ensures(VsmbDevice::new, (shares,), device) || call_ensures(
            VsmbResolver::resolve,
            (&VsmbResolver, VsmbDeviceHandle { shares }),
            device,
        ),
        call_ensures(VsmbDevice::open, (&device, empty_dir), r),
    ensures
        r@.pending is None,
        !r@.negotiated,
        r@.phase == Phase::Header,
        !r@.server.negotiated,
        r@.server.next_session_id == 1 && r@.server.next_tree_id == 1 && r@.server.next_file_id
            == 1,
        r@.server.sessions.len() == 0,
        forall|id: u32| !r@.server.trees.contains_key(id),
        forall|id: u64| !r@.server.open_files.contains_key(id),
        0 <= i < shares@.len() && (forall|k: int|
            i < k < shares@.len() ==> lowercase((#[trigger] shares@[k]).name@) != lowercase(
                shares@[i].name@,
            )) ==> r@.server.shares.contains_pair(lowercase(shares@[i].name@), shares@[i].path@),
        (forall|k: int|
            0 <= k < shares@.len() ==> lowercase((#[trigger] shares@[k]).name@)
                != "defaultemptyshare"@) ==> r@.server.shares.contains_pair(
            "defaultemptyshare"@,
            empty_dir@,
        ),
{
    let views = share_views(device.shares());
    assert(device.shares() == shares@);
    if 0 <= i < shares@.len() && (forall|k: int|
        i < k < shares@.len() ==> lowercase((#[trigger] shares@[k]).name@) != lowercase(
            shares@[i].name@,
        )) {
        assert forall|k: int| i < k < views.len() implies lowercase((#[trigger] views[k]).name)
            != lowercase(views[i].name) by {
            assert(views[k].name == shares@[k].name@);
        }
        law_configured_shares_are_exposed(views, empty_dir@, i);
    }
    law_exposed_names(views, empty_dir@, "defaultemptyshare"@);
    if forall|k: int|
        0 <= k < shares@.len() ==> lowercase((#[trigger] shares@[k]).name@)
            != "defaultemptyshare"@ {
        assert forall|k: int| 0 <= k < views.len() implies lowercase((#[trigger] views[k]).name)
            != "defaultemptyshare"@ by {
            assert(views[k].name == shares@[k].name@);
        }
    }
}

/// The resource ids by which devices are asked for.
pub proof fn law_resource_ids()
    ensures
        VSMB_RESOURCE_ID@ == "vsmb"@,
        VMBFS_BOOT_RESOURCE_ID@ == "vmbfs-boot"@,
        VMBFS_IMC_RESOURCE_ID@ == "vmbfs-imc"@,
{
}

/// A device has as many shares as it was given.
pub proof fn law_share_count(shares: Vec<VsmbShare>, device: VsmbDevice, n: usize)
    requires
        call_ensures(VsmbDevice::new, (shares,), device),
        call_ensures(VsmbDevice::share_count, (&device,), n),
    ensures
        n == shares@.len(),
{
}

} // verus!
