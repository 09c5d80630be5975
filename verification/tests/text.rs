use vmlab::json::Json;
use vmlab::names::NameMap;
use vmlab::net::addr::{Ipv4Addr, MacAddr};
use vmlab::net::cidr::{subnets24, Ipv4Net};
use vmlab::net::engine::icmp::SubprocessPinger;
use vmlab::text::{
    any_string, decimal_string, file_name, has_text, join_path, join_strings, sort_strings, str_le,
    trim,
};

#[test]
fn numbers_print() {
    assert_eq!(decimal_string(0), "0");
    assert_eq!(decimal_string(u64::MAX), "18446744073709551615");
}

#[test]
fn strings_join_and_sort() {
    let v: Vec<String> = ["b", "a", "é"].iter().map(|s| s.to_string()).collect();
    assert_eq!(join_strings(&v, ", "), "b, a, é");
    assert_eq!(sort_strings(&v), vec!["a".to_string(), "b".to_string(), "é".to_string()]);
    assert!(any_string(&v, "a"));
    assert!(!any_string(&v, "c"));
    assert!(str_le("a", "b"));
    assert!(!str_le("b", "a"));
}

#[test]
fn texts_are_searched_and_trimmed() {
    assert!(has_text("import <vmlab.wcl>\n", "<vmlab.wcl>"));
    assert!(!has_text("abc", "abd"));
    assert!(has_text("abc", ""));
    assert_eq!(trim("  a b \n"), "a b");
}

#[test]
fn paths_join() {
    assert_eq!(join_path("/a", "b"), "/a/b");
    assert_eq!(join_path("/a/", "b"), "/a/b");
    assert_eq!(join_path("/a", "/b"), "/b");
    assert_eq!(file_name("/a/b.txt"), Some("b.txt".to_string()));
}

#[test]
fn names_are_kept_in_order() {
    let mut m: NameMap<u32> = NameMap::new();
    m.insert("b", 1);
    m.insert("a", 2);
    m.insert("b", 3);
    assert_eq!(m.len(), 2);
    assert_eq!(m.at(0).0, "a");
    assert_eq!(m.get("b"), Some(&3));
    assert_eq!(m.remove("a"), Some(2));
    assert!(!m.contains("a"));
    assert_eq!(m.remove("a"), None);
}

#[test]
fn networks_parse_and_print() {
    let n = Ipv4Net::parse("10.50.0.7/24").unwrap();
    assert_eq!(n.addr(), Ipv4Addr::new(10, 50, 0, 7));
    assert_eq!(n.prefix_len(), 24);
    assert_eq!(n.network(), Ipv4Addr::new(10, 50, 0, 0));
    assert_eq!(n.broadcast(), Ipv4Addr::new(10, 50, 0, 255));
    assert_eq!(n.netmask(), Ipv4Addr::new(255, 255, 255, 0));
    assert!(n.contains(Ipv4Addr::new(10, 50, 0, 200)));
    assert!(!n.contains(Ipv4Addr::new(10, 50, 1, 0)));
    assert_eq!(n.to_text(), "10.50.0.7/24");
    assert!(Ipv4Net::parse("10.50.0.0/33").is_none());
    assert!(Ipv4Net::parse("10.50.0.0").is_none());
    assert!(Ipv4Net::new(Ipv4Addr::new(1, 2, 3, 4), 33).is_none());
    let any = Ipv4Net::parse("0.0.0.0/0").unwrap();
    assert_eq!(any.netmask(), Ipv4Addr::unspecified());
    assert!(any.contains(Ipv4Addr::broadcast()));
    let host = Ipv4Net::parse("10.0.0.1/32").unwrap();
    assert_eq!(host.network(), host.broadcast());
}

#[test]
fn blocks_of_a_pool() {
    let all = subnets24(0x0AD5_0000);
    assert_eq!(all.len(), 256);
    assert_eq!(all[0].to_text(), "10.213.0.0/24");
    assert_eq!(all[255].to_text(), "10.213.255.0/24");
}

#[test]
fn addresses_parse_and_print() {
    assert_eq!(Ipv4Addr::parse("10.0.0.1"), Some(Ipv4Addr::new(10, 0, 0, 1)));
    assert_eq!(Ipv4Addr::parse("10.0.0"), None);
    assert_eq!(Ipv4Addr::parse("10.0.0.256"), None);
    assert_eq!(Ipv4Addr::parse("10.0.0.01"), None);
    assert_eq!(Ipv4Addr::new(1, 2, 3, 4).octets(), [1, 2, 3, 4]);
    assert_eq!(MacAddr::broadcast().to_text(), "ff:ff:ff:ff:ff:ff");
}

#[test]
fn members_are_read_by_type() {
    let j = Json::Object(vec![
        ("a".to_string(), Json::Text("x".to_string())),
        ("b".to_string(), Json::Bool(true)),
        ("c".to_string(), Json::Unsigned(7)),
        ("d".to_string(), Json::List(vec![Json::Text("p".to_string()), Json::Null])),
    ]);
    assert_eq!(j.text("a"), Some("x".to_string()));
    assert_eq!(j.text("b"), None);
    assert!(j.flag("b"));
    assert!(!j.flag("a"));
    assert_eq!(j.number("c"), Some(7));
    assert_eq!(j.texts("d"), vec!["p".to_string()]);
    assert!(j.texts("zz").is_empty());
    assert!(j.get("zz").is_none());
}

#[test]
fn ping_is_told_what_to_probe() {
    let p = SubprocessPinger { timeout_secs: 2 };
    assert_eq!(
        p.ping_args(Ipv4Addr::new(1, 1, 1, 1)),
        ["-c", "1", "-W", "2", "-n", "1.1.1.1"].map(|s| s.to_string()).to_vec()
    );
}
