//! Small control-surface decisions: how an embedding host's start request
//! is dispatched by its options version, which route of the status API a
//! path names, and the record of host routes the node has installed.

use vstd::prelude::*;

use crate::net::Ipv4Cidr;

verus! {

/// How an embedding host may start the node, by start-options version:
/// the first version drives packets over the callback bridge; the second
/// adds a TUN file descriptor when one is given and the platform can adopt
/// it; the third adds delayed starting. Any other version is refused.
#[derive(Clone, Copy, Debug, PartialEq, Eq, Structural)]
pub enum StartPlan {
    /// Packets flow through the host's callbacks.
    Bridge { delayed: bool },
    /// Packets flow through the handed-in TUN file descriptor.
    TunFd { delayed: bool },
    /// The version is unknown; the caller gets an error naming it.
    UnknownVersion,
}

pub fn plan_start(version: u32, tun_fd_present: bool, delayed_start: bool, tun_fd_supported: bool)
    -> (r: StartPlan)
    ensures
        version == 1 ==> r == (StartPlan::Bridge { delayed: false }),
        version == 2 && tun_fd_present && tun_fd_supported ==> r == (StartPlan::TunFd {
            delayed: false,
        }),
        version == 2 && !(tun_fd_present && tun_fd_supported) ==> r == (StartPlan::Bridge {
            delayed: false,
        }),
        version == 3 && tun_fd_present && tun_fd_supported ==> r == (StartPlan::TunFd {
            delayed: delayed_start,
        }),
        version == 3 && !(tun_fd_present && tun_fd_supported) ==> r == (StartPlan::Bridge {
            delayed: delayed_start,
        }),
        !(version == 1 || version == 2 || version == 3) ==> r == StartPlan::UnknownVersion,
{
    if version == 1 {
        StartPlan::Bridge { delayed: false }
    } else if version == 2 {
        if tun_fd_present && tun_fd_supported {
            StartPlan::TunFd { delayed: false }
        } else {
            StartPlan::Bridge { delayed: false }
        }
    } else if version == 3 {
        if tun_fd_present && tun_fd_supported {
            StartPlan::TunFd { delayed: delayed_start }
        } else {
            StartPlan::Bridge { delayed: delayed_start }
        }
    } else {
        StartPlan::UnknownVersion
    }
}

/// The status API's routes: everything else is not found.
#[derive(Clone, Copy, Debug, PartialEq, Eq, Structural)]
pub enum ApiRoute {
    /// `/info`: the JSON snapshot of the interfaces or groups.
    Info,
    /// `/type`: the literal role of the process.
    RoleType,
    NotFound,
}

/// The path bytes of `/info`.
pub open spec fn spec_info_path() -> Seq<u8> {
    seq![47u8, 105u8, 110u8, 102u8, 111u8]
}

/// The path bytes of `/type`.
pub open spec fn spec_type_path() -> Seq<u8> {
    seq![47u8, 116u8, 121u8, 112u8, 101u8]
}

/// Decide which route a request path names.
pub fn route_path(path: &[u8]) -> (r: ApiRoute)
    ensures
        r == ApiRoute::Info <==> path@ == spec_info_path(),
        r == ApiRoute::RoleType <==> path@ == spec_type_path(),
{
    if path.len() == 5 && path[0] == 47 && path[1] == 105 && path[2] == 110 && path[3] == 102
        && path[4] == 111 {
        proof {
            vstd::assert_seqs_equal!(path@ == spec_info_path());
        }
        ApiRoute::Info
    } else if path.len() == 5 && path[0] == 47 && path[1] == 116 && path[2] == 121 && path[3]
        == 112 && path[4] == 101 {
        proof {
            vstd::assert_seqs_equal!(path@ == spec_type_path());
        }
        ApiRoute::RoleType
    } else {
        proof {
            if path@ == spec_info_path() {
                assert(path@.len() == 5 && path@[0] == 47u8 && path@[1] == 105u8 && path@[2]
                    == 110u8 && path@[3] == 102u8 && path@[4] == 111u8);
            }
            if path@ == spec_type_path() {
                assert(path@.len() == 5 && path@[0] == 47u8 && path@[1] == 116u8 && path@[2]
                    == 121u8 && path@[3] == 112u8 && path@[4] == 101u8);
            }
        }
        ApiRoute::NotFound
    }
}

/// One host route the node installed: a destination block through a
/// gateway.
#[derive(Clone, Copy, Debug, PartialEq, Eq, Structural)]
pub struct RouteEntry {
    pub dest: Ipv4Cidr,
    pub gateway: u32,
}

/// The record of host routes currently installed, so that whatever was
/// added can be torn down again, even on a panic-driven teardown.
#[derive(Debug)]
pub struct InstalledRoutes {
    routes: Vec<RouteEntry>,
}

impl InstalledRoutes {
    pub closed spec fn view(self) -> Seq<RouteEntry> {
        self.routes@
    }

    pub fn new() -> (r: InstalledRoutes)
        ensures
            r@ =~= Seq::<RouteEntry>::empty(),
    {
        InstalledRoutes { routes: Vec::new() }
    }

    pub fn len(&self) -> (r: usize)
        ensures
            r == self@.len(),
    {
        self.routes.len()
    }

    pub fn is_empty(&self) -> (r: bool)
        ensures
            r == (self@.len() == 0),
    {
        self.routes.len() == 0
    }

    pub fn get(&self, i: usize) -> (r: RouteEntry)
        requires
            i < self@.len(),
        ensures
            r == self@[i as int],
    {
        self.routes[i]
    }

    /// Record one more installed route.
    pub fn record(&mut self, route: RouteEntry)
        ensures
            final(self)@ == old(self)@.push(route),
    {
        self.routes.push(route);
    }

    /// Hand back everything recorded, leaving nothing installed on record:
    /// the caller removes each from the host.
    pub fn take_all(&mut self) -> (r: Vec<RouteEntry>)
        ensures
            r@ == old(self)@,
            final(self)@ =~= Seq::<RouteEntry>::empty(),
    {
        let mut out: Vec<RouteEntry> = Vec::new();
        let ghost orig = self.routes@;
        let n = self.routes.len();
        let mut i: usize = 0;
        while i < n
            invariant
                n == self.routes@.len(),
                self.routes@ == orig,
                i <= n,
                out@ == orig.take(i as int),
            decreases n - i,
        {
            out.push(self.routes[i]);
            proof {
                vstd::assert_seqs_equal!(out@ == orig.take(i + 1int));
            }
            i += 1;
        }
        self.routes = Vec::new();
        proof {
            vstd::assert_seqs_equal!(out@ == orig);
        }
        out
    }
}

} // verus!
