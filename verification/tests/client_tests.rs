use wirepf::addr::{addr_from_octets, cidr_contains, ipv4_to_string};
use wirepf::cli::{command_request, Command, IfaceCmd, MappingCmd};
use wirepf::client::{
    add_dnat_request, api_error, decode_empty, delete_dnat_request, delete_iface_request, health_request,
    is_success, normalize_base, put_masquerade_request, refresh_iface_ip_request, req, urlencode, ClientError, Method,
};
use wirepf::dto::{Cidr, DnatMapping, Health, IfaceView, MasqueradeCfg, SnatMapping};
use wirepf::output::{Printer, Rendered};
use wirepf::settings::{load_file, resolve, ConfigSource, Context, ContextsConfig, FileConfig, DEFAULT_URL};
use wirepf::text::{decimal_string, trim_trailing_slashes};

fn text(r: Rendered) -> String {
    match r {
        Rendered::Text(t) => t,
        Rendered::Json => panic!("expected text"),
    }
}

#[test]
fn dotted_quads() {
    assert_eq!(ipv4_to_string(0x0A00_0001), "10.0.0.1");
    assert_eq!(ipv4_to_string(0), "0.0.0.0");
    assert_eq!(ipv4_to_string(u32::MAX), "255.255.255.255");
    assert_eq!(addr_from_octets(192, 168, 1, 2), 0xC0A8_0102);
}

#[test]
fn cidr_matching() {
    assert!(cidr_contains(0x0A00_0000, 8, 0x0AFF_FFFF));
    assert!(!cidr_contains(0x0A00_0000, 8, 0x0B00_0000));
    assert!(cidr_contains(0, 0, 0x1234_5678));
    assert!(cidr_contains(0x0102_0304, 32, 0x0102_0304));
    assert!(!cidr_contains(0x0102_0304, 33, 0x0102_0304));
}

#[test]
fn decimals_and_trimming() {
    assert_eq!(decimal_string(0), "0");
    assert_eq!(decimal_string(1234567890), "1234567890");
    assert_eq!(trim_trailing_slashes("http://x//"), "http://x");
    assert_eq!(trim_trailing_slashes("///"), "");
    assert_eq!(normalize_base("http://127.0.0.1:1204/"), "http://127.0.0.1:1204");
}

#[test]
fn urlencode_examples() {
    assert_eq!(urlencode("eth0"), "eth0");
    assert_eq!(urlencode("a b/c"), "a%20b%2Fc");
    assert_eq!(urlencode("A-z_0.~"), "A-z_0.~");
    assert_eq!(urlencode("é"), "%C3%A9");
    assert_eq!(urlencode(""), "");
}

#[test]
fn request_paths() {
    assert_eq!(health_request().path, "/health");
    let d = delete_iface_request("wg 0");
    assert_eq!((d.method, d.path.as_str(), d.mutating), (Method::Delete, "/interfaces/wg%200", true));
    assert_eq!(refresh_iface_ip_request("eth0").path, "/interfaces/eth0/refresh-ip");
    assert_eq!(add_dnat_request("eth0").method, Method::Post);
    assert_eq!(delete_dnat_request("eth0", 0x0102_0304).path, "/interfaces/eth0/dnat/1.2.3.4");
    assert_eq!(put_masquerade_request("eth0").method, Method::Put);
}

#[test]
fn command_requests() {
    let c = Command::Mapping(MappingCmd::Delete { iface: "eth0".to_string(), orig: 0x0A00_0001 });
    let r = command_request(&c);
    assert_eq!((r.method, r.path.as_str(), r.mutating), (Method::Delete, "/interfaces/eth0/dnat/10.0.0.1", true));
    let l = command_request(&Command::Iface(IfaceCmd::List));
    assert_eq!((l.method, l.path.as_str(), l.mutating), (Method::Get, "/interfaces", false));
    assert!(command_request(&Command::Iface(IfaceCmd::Create { name: "x".to_string() })).mutating);
}

#[test]
fn prepared_requests_and_tokens() {
    let p = req("http://h", &None, "/health", false).unwrap();
    assert_eq!(p.url, "http://h/health");
    assert!(p.bearer.is_none());
    let e = req("http://h", &None, "/interfaces", true).unwrap_err();
    assert!(matches!(e, ClientError::MissingToken));
    assert_eq!(e.message(), "--token / WIREPF_TOKEN required for this command");
    let t = req("http://h", &Some("t".to_string()), "/interfaces", true).unwrap();
    assert_eq!(t.bearer, Some("t".to_string()));
}

#[test]
fn answers() {
    assert!(is_success(200) && is_success(204) && !is_success(404) && !is_success(199) && !is_success(300));
    assert!(decode_empty(204, None, String::new()).is_ok());
    let e = decode_empty(404, Some("interface x".to_string()), "{...}".to_string()).unwrap_err();
    assert_eq!((e.status, e.message.as_str()), (404, "interface x"));
    assert_eq!(api_error(500, None, "boom".to_string()).message, "boom");
}

#[test]
fn settings_precedence() {
    let file = FileConfig { url: Some("http://file".to_string()), token: Some("ft".to_string()) };
    let s = resolve(Some("http://flag".to_string()), None, file);
    assert_eq!((s.url.as_str(), s.token.as_deref()), ("http://flag", Some("ft")));
    let d = resolve(None, Some("t".to_string()), FileConfig::default());
    assert_eq!((d.url.as_str(), d.token.as_deref()), (DEFAULT_URL, Some("t")));
    assert_eq!(DEFAULT_URL, "http://127.0.0.1:1204");
    assert!(matches!(load_file(None, None), ConfigSource::Defaults));
    assert!(matches!(load_file(Some("a".to_string()), Some("b".to_string())), ConfigSource::File(p) if p == "a"));
    assert!(matches!(load_file(None, Some("b".to_string())), ConfigSource::File(p) if p == "b"));
}

#[test]
fn printer_text() {
    let p = Printer::new(false);
    assert_eq!(text(p.health(&Health { ok: true })), "ok\n");
    assert_eq!(text(p.health(&Health { ok: false })), "unhealthy\n");
    assert_eq!(text(p.ifaces(&vec![])), "(no interfaces)\n");
    assert_eq!(text(p.dnat_list(&vec![])), "(no dnat mappings)\n");
    assert_eq!(text(p.snat_list(&vec![])), "(no snat mappings)\n");
    assert_eq!(text(p.dnat(&DnatMapping { orig: 0x0102_0304, new: 0x0A00_0001 }, "mapped")), "mapped dnat 1.2.3.4 -> 10.0.0.1\n");
    assert_eq!(text(p.snat(&SnatMapping { orig: 1, new: 2 }, "added")), "added snat 0.0.0.1 -> 0.0.0.2\n");
    assert_eq!(text(p.deleted("mapping", "eth0/1.2.3.4")), "deleted mapping eth0/1.2.3.4\n");
    assert_eq!(text(p.context_action("used", "prod")), "used context prod\n");
    let ctx = Context { url: "http://h".to_string(), token: None };
    assert_eq!(text(p.context("prod", &ctx, true)), "name:    prod (current)\nurl:     http://h\ntoken:   (none)\n");
    let off = MasqueradeCfg { enabled: false, src_cidrs: vec![] };
    assert_eq!(text(p.masquerade(&off)), "enabled: false\ncidrs:   (none)\n");
    let on = MasqueradeCfg { enabled: true, src_cidrs: vec![Cidr { addr: 0x0A00_0000, prefix_len: 8 }] };
    assert_eq!(text(p.masquerade(&on)), "enabled: true\ncidrs:\n  10.0.0.0/8\n");
}

#[test]
fn printer_json_mode() {
    let p = Printer::new(true);
    assert!(matches!(p.health(&Health { ok: true }), Rendered::Json));
    assert!(matches!(p.deleted("a", "b"), Rendered::Json));
}

#[test]
fn printer_tables() {
    let p = Printer::new(false);
    let v = IfaceView {
        name: "eth0".to_string(),
        dnat: vec![DnatMapping { orig: 1, new: 2 }],
        snat: vec![],
        masquerade: MasqueradeCfg { enabled: false, src_cidrs: vec![Cidr { addr: 0, prefix_len: 0 }] },
        iface_ip: Some(0xC0A8_0001),
    };
    let t = text(p.ifaces(&vec![v]));
    assert!(t.ends_with('\n'));
    for cell in ["NAME", "IFACE_IP", "MASQ", "eth0", "192.168.0.1", "off (1 cidrs)"] {
        assert!(t.contains(cell), "{t}");
    }
    let m = text(p.dnat_list(&vec![DnatMapping { orig: 0x0102_0304, new: 0x0A00_0001 }]));
    assert!(m.contains("1.2.3.4") && m.contains("10.0.0.1") && m.contains("ORIG"));
    let cfg = ContextsConfig {
        current: Some("prod".to_string()),
        contexts: vec![("prod".to_string(), Context { url: "http://h".to_string(), token: Some("x".to_string()) })],
    };
    let c = text(p.contexts(&cfg));
    assert!(c.contains("*") && c.contains("***") && c.contains("http://h"));
    assert_eq!(text(p.contexts(&ContextsConfig { current: None, contexts: vec![] })), "(no contexts)\n");
}

#[test]
fn urlencode_keeps_names_apart() {
    assert_ne!(urlencode("a/b"), urlencode("a%2Fb"));
    assert_eq!(urlencode("a%2Fb"), "a%252Fb");
    assert!(!urlencode("../etc").contains('/'));
}
