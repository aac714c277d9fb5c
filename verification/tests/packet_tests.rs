use std::collections::HashMap;
use wirepf::dto::{Cidr, DnatMapping, InterfaceCfg, MasqueradeCfg};
use wirepf::packet::{
    egress, ingress, ipv4_offset, ptr_at, read_ipv4, rewrite_addr, snat, try_egress, try_ingress, try_snat,
    AddrField, EgressMaps, L4Update, Rewrite, TC_ACT_OK,
};
use wirepf::tables::{load_interface, NatTables};

fn ipv4_header(proto: u8, src: [u8; 4], dst: [u8; 4]) -> Vec<u8> {
    let mut h = vec![0x45, 0, 0, 40, 0, 0, 0, 0, 64, proto, 0xAB, 0xCD];
    h.extend_from_slice(&src);
    h.extend_from_slice(&dst);
    h
}

fn eth_frame(proto: u8, src: [u8; 4], dst: [u8; 4]) -> Vec<u8> {
    let mut f = vec![0u8; 12];
    f.push(0x08);
    f.push(0x00);
    f.extend(ipv4_header(proto, src, dst));
    f.extend(vec![0u8; 20]);
    f
}

fn table(entries: &[(u32, u32)]) -> HashMap<u32, u32> {
    entries.iter().copied().collect()
}

#[test]
fn ptr_at_checks_bounds() {
    assert_eq!(ptr_at(34, 14, 20), Ok(14));
    assert_eq!(ptr_at(33, 14, 20), Err(()));
    assert_eq!(ptr_at(10, 11, 0), Err(()));
}

#[test]
fn ipv4_offset_of_ethernet_frame() {
    let f = eth_frame(6, [1, 2, 3, 4], [5, 6, 7, 8]);
    assert_eq!(ipv4_offset(&f), Ok(Some(14)));
}

#[test]
fn ipv4_offset_of_link_less_packet() {
    let mut p = ipv4_header(17, [1, 2, 3, 4], [5, 6, 7, 8]);
    p.extend(vec![0u8; 8]);
    assert_eq!(ipv4_offset(&p), Ok(Some(0)));
}

#[test]
fn ipv4_offset_of_other_traffic() {
    let mut f = vec![0u8; 12];
    f.push(0x08);
    f.push(0x06);
    f.extend(vec![0u8; 28]);
    assert_eq!(ipv4_offset(&f), Ok(None));
}

#[test]
fn ipv4_offset_of_short_packet() {
    assert_eq!(ipv4_offset(&[0x45; 13]), Err(()));
}

#[test]
fn read_ipv4_reads_network_order() {
    let f = eth_frame(6, [10, 0, 0, 1], [192, 168, 1, 2]);
    let fields = read_ipv4(&f, 14);
    assert_eq!(fields.src, 0x0A00_0001);
    assert_eq!(fields.dst, 0xC0A8_0102);
    assert_eq!(fields.proto, 6);
}

#[test]
fn rewrite_offsets_and_flags() {
    let tcp = rewrite_addr(14, 1, 2, 6, AddrField::Dst);
    assert_eq!(
        tcp,
        Rewrite { l3_csum_offset: 24, l4: Some(L4Update { offset: 50, flags: 0x14 }), addr_offset: 30, old: 1, new: 2 }
    );
    let udp = rewrite_addr(0, 1, 2, 17, AddrField::Src);
    assert_eq!(
        udp,
        Rewrite { l3_csum_offset: 10, l4: Some(L4Update { offset: 26, flags: 0x34 }), addr_offset: 12, old: 1, new: 2 }
    );
    let icmp = rewrite_addr(0, 1, 2, 1, AddrField::Src);
    assert_eq!(icmp.l4, None);
}

#[test]
fn ingress_dnat_then_snat() {
    let f = eth_frame(6, [9, 9, 9, 9], [1, 1, 1, 1]);
    let dnat = table(&[(0x0101_0101, 0x0A00_0005)]);
    let sn = table(&[(0x0909_0909, 0x0808_0808)]);
    let r = try_ingress(&f, &dnat, &sn).unwrap();
    assert_eq!(r.len(), 2);
    assert_eq!(r[0], rewrite_addr(14, 0x0101_0101, 0x0A00_0005, 6, AddrField::Dst));
    assert_eq!(r[1], rewrite_addr(14, 0x0909_0909, 0x0808_0808, 6, AddrField::Src));
}

#[test]
fn ingress_without_entries_rewrites_nothing() {
    let f = eth_frame(6, [9, 9, 9, 9], [1, 1, 1, 1]);
    let r = try_ingress(&f, &HashMap::new(), &HashMap::new()).unwrap();
    assert!(r.is_empty());
}

#[test]
fn ingress_truncated_header_is_error() {
    let mut f = eth_frame(6, [9, 9, 9, 9], [1, 1, 1, 1]);
    f.truncate(30);
    assert_eq!(try_ingress(&f, &HashMap::new(), &HashMap::new()), Err(()));
    let v = ingress(&f, &HashMap::new(), &HashMap::new());
    assert_eq!(v.action, TC_ACT_OK);
    assert!(v.rewrites.is_empty());
}

fn egress_maps() -> EgressMaps {
    EgressMaps {
        un_dnat: HashMap::new(),
        snat: HashMap::new(),
        masq_cidrs: vec![Cidr { addr: 0x0A00_0000, prefix_len: 8 }],
        iface_ip: 0xC633_6401,
        masq_enabled: 1,
    }
}

#[test]
fn egress_un_dnat_wins() {
    let f = eth_frame(17, [10, 0, 0, 5], [8, 8, 8, 8]);
    let mut m = egress_maps();
    m.un_dnat.insert(0x0A00_0005, 0x0101_0101);
    m.snat.insert(0x0A00_0005, 0x0202_0202);
    let r = try_egress(&f, &m).unwrap().unwrap();
    assert_eq!(r.new, 0x0101_0101);
    assert_eq!(r.addr_offset, 26);
}

#[test]
fn egress_snat_before_masquerade() {
    let f = eth_frame(17, [10, 0, 0, 5], [8, 8, 8, 8]);
    let mut m = egress_maps();
    m.snat.insert(0x0A00_0005, 0x0202_0202);
    assert_eq!(try_egress(&f, &m).unwrap().unwrap().new, 0x0202_0202);
}

#[test]
fn egress_masquerade_rewrites_to_interface_address() {
    let f = eth_frame(6, [10, 1, 2, 3], [8, 8, 8, 8]);
    let m = egress_maps();
    let r = try_egress(&f, &m).unwrap().unwrap();
    assert_eq!(r.old, 0x0A01_0203);
    assert_eq!(r.new, 0xC633_6401);
    let v = egress(&f, &m);
    assert_eq!(v.action, TC_ACT_OK);
    assert_eq!(v.rewrites, vec![r]);
}

#[test]
fn egress_masquerade_needs_match_enable_and_address() {
    let outside = eth_frame(6, [11, 1, 2, 3], [8, 8, 8, 8]);
    assert_eq!(try_egress(&outside, &egress_maps()), Ok(None));
    let inside = eth_frame(6, [10, 1, 2, 3], [8, 8, 8, 8]);
    let mut off = egress_maps();
    off.masq_enabled = 0;
    assert_eq!(try_egress(&inside, &off), Ok(None));
    let mut no_ip = egress_maps();
    no_ip.iface_ip = 0;
    assert_eq!(try_egress(&inside, &no_ip), Ok(None));
}

#[test]
fn snat_program_needs_ethernet() {
    let t = table(&[(0x0A00_0005, 0x0303_0303)]);
    let f = eth_frame(6, [10, 0, 0, 5], [8, 8, 8, 8]);
    assert_eq!(try_snat(&f, &t).unwrap().unwrap().new, 0x0303_0303);
    let mut p = ipv4_header(6, [10, 0, 0, 5], [8, 8, 8, 8]);
    p.extend(vec![0u8; 20]);
    assert_eq!(try_snat(&p, &t), Ok(None));
    assert_eq!(try_snat(&f[..20], &t), Err(()));
    assert_eq!(snat(&f[..20], &t).rewrites.len(), 0);
}

#[test]
fn installed_mapping_round_trip() {
    let mut t = NatTables::new();
    t.insert_mapping(0x0101_0101, 0x0A00_0005);
    let request = eth_frame(6, [9, 9, 9, 9], [1, 1, 1, 1]);
    let r = try_ingress(&request, &t.dnat, &HashMap::new()).unwrap();
    assert_eq!(r[0].new, 0x0A00_0005);
    let reply = eth_frame(6, [10, 0, 0, 5], [9, 9, 9, 9]);
    let mut m = egress_maps();
    m.un_dnat = t.reverse.clone();
    let back = try_egress(&reply, &m).unwrap().unwrap();
    assert_eq!((back.old, back.new), (0x0A00_0005, 0x0101_0101));
}

#[test]
fn remove_mapping_undoes_insert() {
    let mut t = NatTables::new();
    t.insert_mapping(7, 8);
    t.insert_mapping(1, 2);
    t.remove_mapping(1, 2);
    assert_eq!(t.dnat, table(&[(7, 8)]));
    assert_eq!(t.reverse, table(&[(8, 7)]));
}

#[test]
fn load_interface_installs_every_mapping() {
    let iface = InterfaceCfg {
        name: "eth0".to_string(),
        dnat: vec![DnatMapping { orig: 1, new: 2 }, DnatMapping { orig: 3, new: 4 }],
        snat: vec![],
        masquerade: MasqueradeCfg::default(),
    };
    let t = load_interface(&iface);
    assert_eq!(t.dnat, table(&[(1, 2), (3, 4)]));
    assert_eq!(t.reverse, table(&[(2, 1), (4, 3)]));
}
