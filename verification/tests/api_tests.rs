use wirepf::api::{
    commit_create_iface, commit_create_mapping, commit_delete_iface, commit_delete_mapping, create_iface,
    create_mapping, delete_iface, delete_mapping, health, list_ifaces, list_mappings, require_auth, ApiError,
};
use wirepf::config::{Config, DEFAULT_BIND_ADDR};
use wirepf::dto::{DnatMapping, InterfaceCfg, MasqueradeCfg};

fn iface(name: &str, dnat: Vec<DnatMapping>) -> InterfaceCfg {
    InterfaceCfg { name: name.to_string(), dnat, snat: vec![], masquerade: MasqueradeCfg::default() }
}

fn config() -> Config {
    Config {
        auth_token: Some("secret".to_string()),
        bind_addr: None,
        interfaces: vec![
            iface("eth0", vec![DnatMapping { orig: 0x0102_0304, new: 0x0A00_0001 }]),
            iface("wg0", vec![DnatMapping { orig: 0x0505_0505, new: 0x0A00_0002 }]),
        ],
    }
}

fn err_of<T: std::fmt::Debug>(r: Result<T, ApiError>) -> (u16, String) {
    let e = r.unwrap_err();
    (e.status, e.message)
}

#[test]
fn health_is_ok() {
    assert!(health().ok);
}

#[test]
fn bind_addr_default_and_configured() {
    let mut c = config();
    assert_eq!(c.bind_addr(), DEFAULT_BIND_ADDR);
    assert_eq!(c.bind_addr(), "0.0.0.0:1204");
    c.bind_addr = Some("127.0.0.1:9".to_string());
    assert_eq!(c.bind_addr(), "127.0.0.1:9");
}

#[test]
fn find_iface_by_name() {
    let mut c = config();
    assert_eq!(c.find_iface("wg0").unwrap().dnat.len(), 1);
    assert!(c.find_iface("lo").is_none());
    assert_eq!(c.find_iface_index("wg0"), Some(1));
    c.find_iface_mut("wg0").unwrap().dnat.clear();
    assert!(c.interfaces[1].dnat.is_empty());
    assert!(c.find_iface_mut("lo").is_none());
}

#[test]
fn list_ifaces_shows_each_interface() {
    let v = list_ifaces(&config());
    assert_eq!(v.len(), 2);
    assert_eq!(v[0].name, "eth0");
    assert_eq!(v[1].dnat, vec![DnatMapping { orig: 0x0505_0505, new: 0x0A00_0002 }]);
    assert_eq!(v[0].iface_ip, None);
}

#[test]
fn list_mappings_of_unknown_interface() {
    assert_eq!(err_of(list_mappings(&config(), "lo")), (404, "interface lo".to_string()));
    assert_eq!(list_mappings(&config(), "eth0").unwrap().len(), 1);
}

#[test]
fn create_iface_conflict() {
    assert_eq!(err_of(create_iface(&config(), "eth0")), (409, "interface eth0 already exists".to_string()));
    assert!(create_iface(&config(), "eth1").is_ok());
}

#[test]
fn create_then_delete_iface() {
    let mut c = config();
    let v = commit_create_iface(&mut c, "eth1");
    assert_eq!(v.name, "eth1");
    assert_eq!(c.interfaces.len(), 3);
    assert!(delete_iface(&c, "eth1").is_ok());
    commit_delete_iface(&mut c, "eth1");
    assert_eq!(c.interfaces.len(), 2);
    assert_eq!(c.interfaces[1].name, "wg0");
    assert_eq!(err_of(delete_iface(&c, "eth1")), (404, "interface eth1".to_string()));
}

#[test]
fn delete_iface_removes_every_interface_of_that_name() {
    let mut c = config();
    c.interfaces.push(iface("eth0", vec![]));
    commit_delete_iface(&mut c, "eth0");
    assert_eq!(c.interfaces.len(), 1);
    assert_eq!(c.interfaces[0].name, "wg0");
}

#[test]
fn create_mapping_errors() {
    let c = config();
    let m = DnatMapping { orig: 0x0909_0909, new: 0x0A00_0009 };
    assert_eq!(err_of(create_mapping(&c, "lo", m, true)), (404, "interface lo".to_string()));
    assert_eq!(
        err_of(create_mapping(&c, "eth0", DnatMapping { orig: 0x0A00_0001, new: 0x0A00_0001 }, true)),
        (409, "orig and new must differ (10.0.0.1)".to_string())
    );
    assert_eq!(
        err_of(create_mapping(&c, "eth0", DnatMapping { orig: 0x0505_0505, new: 0x0A00_0009 }, true)),
        (409, "orig 5.5.5.5 already mapped on interface wg0".to_string())
    );
    assert_eq!(
        err_of(create_mapping(&c, "wg0", DnatMapping { orig: 0x0909_0909, new: 0x0A00_0001 }, true)),
        (409, "target 10.0.0.1 already used by orig 1.2.3.4 on interface eth0".to_string())
    );
    assert_eq!(err_of(create_mapping(&c, "eth0", m, false)), (500, "interface eth0 not attached".to_string()));
    assert!(create_mapping(&c, "eth0", m, true).is_ok());
}

#[test]
fn create_then_list_then_delete_mapping() {
    let mut c = config();
    let m = DnatMapping { orig: 0x0909_0909, new: 0x0A00_0009 };
    assert!(create_mapping(&c, "eth0", m, true).is_ok());
    commit_create_mapping(&mut c, "eth0", m);
    let listed = list_mappings(&c, "eth0").unwrap();
    assert_eq!(listed, vec![DnatMapping { orig: 0x0102_0304, new: 0x0A00_0001 }, m]);
    assert_eq!(delete_mapping(&c, "eth0", m.orig, true).unwrap(), m);
    commit_delete_mapping(&mut c, "eth0", m.orig);
    assert_eq!(list_mappings(&c, "eth0").unwrap(), vec![DnatMapping { orig: 0x0102_0304, new: 0x0A00_0001 }]);
}

#[test]
fn delete_mapping_errors() {
    let c = config();
    assert_eq!(err_of(delete_mapping(&c, "lo", 1, true)), (404, "interface lo".to_string()));
    assert_eq!(err_of(delete_mapping(&c, "eth0", 0x0505_0505, true)), (404, "mapping 5.5.5.5".to_string()));
    assert_eq!(err_of(delete_mapping(&c, "wg0", 0x0505_0505, false)), (500, "interface wg0 not attached".to_string()));
}

#[test]
fn require_auth_cases() {
    let tok = Some("secret".to_string());
    assert!(require_auth(&tok, &Some("Bearer secret".to_string())).is_ok());
    assert_eq!(err_of(require_auth(&tok, &Some("Bearer nope".to_string()))), (401, "invalid token".to_string()));
    assert_eq!(err_of(require_auth(&tok, &Some("secret".to_string()))), (401, "invalid token".to_string()));
    assert_eq!(err_of(require_auth(&tok, &None)), (401, "invalid token".to_string()));
    assert_eq!(err_of(require_auth(&None, &Some("Bearer x".to_string()))), (401, "auth_token not configured".to_string()));
    assert_eq!(
        err_of(require_auth(&Some(String::new()), &Some("Bearer ".to_string()))),
        (401, "auth_token not configured".to_string())
    );
}

#[test]
fn api_error_constructors() {
    assert_eq!(ApiError::not_found("x".to_string()).status, 404);
    assert_eq!(ApiError::conflict("x".to_string()).status, 409);
    assert_eq!(ApiError::internal("x".to_string()).status, 500);
    assert_eq!(ApiError::unauthorized("x".to_string()).status, 401);
    assert_eq!(ApiError::new(418, "tea".to_string()).message, "tea");
}
