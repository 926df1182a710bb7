use fubuki::control::{
    plan_start, route_path, ApiRoute, InstalledRoutes, RouteEntry, StartPlan,
};
use fubuki::net::Ipv4Cidr;

#[test]
fn start_plan_by_version() {
    assert_eq!(plan_start(1, true, true, true), StartPlan::Bridge { delayed: false });
    assert_eq!(plan_start(2, true, false, true), StartPlan::TunFd { delayed: false });
    assert_eq!(plan_start(2, false, false, true), StartPlan::Bridge { delayed: false });
    assert_eq!(plan_start(2, true, false, false), StartPlan::Bridge { delayed: false });
    assert_eq!(plan_start(3, true, true, true), StartPlan::TunFd { delayed: true });
    assert_eq!(plan_start(3, false, true, true), StartPlan::Bridge { delayed: true });
    assert_eq!(plan_start(4, true, true, true), StartPlan::UnknownVersion);
    assert_eq!(plan_start(0, false, false, false), StartPlan::UnknownVersion);
}

#[test]
fn api_routes() {
    assert_eq!(route_path(b"/info"), ApiRoute::Info);
    assert_eq!(route_path(b"/type"), ApiRoute::RoleType);
    assert_eq!(route_path(b"/else"), ApiRoute::NotFound);
    assert_eq!(route_path(b""), ApiRoute::NotFound);
    assert_eq!(route_path(b"/info/"), ApiRoute::NotFound);
}

#[test]
fn installed_routes_record_and_clear() {
    let mut reg = InstalledRoutes::new();
    assert!(reg.is_empty());
    let r1 = RouteEntry { dest: Ipv4Cidr { addr: 0x0A00_0000, prefix: 24 }, gateway: 1 };
    let r2 = RouteEntry { dest: Ipv4Cidr { addr: 0x0A01_0000, prefix: 16 }, gateway: 2 };
    reg.record(r1);
    reg.record(r2);
    assert_eq!(reg.len(), 2);
    assert_eq!(reg.get(0), r1);
    assert_eq!(reg.get(1), r2);
    let all = reg.take_all();
    assert_eq!(all, vec![r1, r2]);
    assert!(reg.is_empty());
}
