use oxidns::v2ray_dat::{parse_geosite_selectors, unique_nonempty_selectors};

#[test]
fn parse_geosite_selector_rejects_empty_attribute() {
    let err = parse_geosite_selectors(&["cn@".to_string()]).expect_err("selector should fail");
    assert!(err.contains("empty attribute"));
}

#[test]
fn unique_selectors_keep_first_spelling() {
    let selectors = unique_nonempty_selectors(&[" CN ".to_string(), "cn".to_string(), "".to_string()]);
    assert_eq!(selectors, vec!["CN".to_string()]);
}

use oxidns::v2ray_dat::{
    check_geoip_dat, check_geosite_dat, cidr_to_rule, detect_dat_kind, domain_has_attribute, geoip_code,
    geosite_code, geosite_domain_expression, geosite_domain_expression_original,
    geosite_domain_expression_original_with_attrs, geosite_domain_matches_selectors, matched_geosite_selectors,
    normalized_selectors, Attribute, Cidr, Domain, GeoIp, GeoIpList, GeoSite, GeoSiteList, GeoSiteSelector, ParsedDat,
    TypedValue,
};

fn domain(domain_type: i32, value: &str, attribute: Vec<Attribute>) -> Domain {
    Domain { domain_type, value: value.to_string(), attribute }
}

fn attr(key: &str, typed_value: Option<TypedValue>) -> Attribute {
    Attribute { key: key.to_string(), typed_value }
}

fn site(code: &str, country: &str, domains: Vec<Domain>) -> GeoSite {
    GeoSite {
        country_code: country.to_string(),
        domain: domains,
        resource_hash: vec![],
        code: code.to_string(),
        file_path: String::new(),
    }
}

fn geoip(code: &str, cidr: Vec<Cidr>) -> GeoIp {
    GeoIp {
        country_code: code.to_string(),
        cidr,
        inverse_match: false,
        resource_hash: vec![],
        code: String::new(),
        file_path: String::new(),
    }
}

#[test]
fn selectors_are_trimmed_lowercased_and_split_at_attribute() {
    let parsed =
        parse_geosite_selectors(&[" CN ".to_string(), "".to_string(), "Google@Ads".to_string()]).unwrap();
    assert_eq!(
        parsed,
        vec![
            GeoSiteSelector { code: "cn".to_string(), attr: None },
            GeoSiteSelector { code: "google".to_string(), attr: Some("ads".to_string()) },
        ]
    );
    let err = parse_geosite_selectors(&["@ads".to_string()]).unwrap_err();
    assert_eq!(err, "invalid empty geosite code selector '@ads'");
    assert_eq!(normalized_selectors(&[" A ".to_string(), " ".to_string()]), vec!["a".to_string()]);
}

#[test]
fn codes_fall_back_to_country_code() {
    assert_eq!(geosite_code(&site("", "CN", vec![])), "CN");
    assert_eq!(geosite_code(&site("google", "CN", vec![])), "google");
    assert_eq!(geoip_code(&geoip("US", vec![])), "US");
}

#[test]
fn cidr_rules_use_dotted_and_rfc5952_forms() {
    assert_eq!(cidr_to_rule(&Cidr { ip: vec![192, 0, 2, 0], prefix: 24 }), Some("192.0.2.0/24".to_string()));
    let mut v6 = vec![0x20, 0x01, 0x0d, 0xb8];
    v6.extend_from_slice(&[0; 11]);
    v6.push(1);
    assert_eq!(cidr_to_rule(&Cidr { ip: v6, prefix: 32 }), Some("2001:db8::1/32".to_string()));
    assert_eq!(cidr_to_rule(&Cidr { ip: vec![0; 16], prefix: 0 }), Some("::/0".to_string()));
    let mut mapped = vec![0; 10];
    mapped.extend_from_slice(&[0xff, 0xff, 192, 0, 2, 1]);
    assert_eq!(cidr_to_rule(&Cidr { ip: mapped, prefix: 128 }), Some("::ffff:192.0.2.1/128".to_string()));
    let mut one_zero = vec![0x20, 0x01, 0, 0];
    one_zero.extend_from_slice(&[0, 1, 0, 0, 0, 0, 0, 0, 0, 0, 0, 1]);
    assert_eq!(cidr_to_rule(&Cidr { ip: one_zero, prefix: 64 }), Some("2001:0:1::1/64".to_string()));
    assert_eq!(cidr_to_rule(&Cidr { ip: vec![1, 2, 3], prefix: 8 }), None);
}

#[test]
fn domain_expressions_follow_domain_type() {
    assert_eq!(geosite_domain_expression(&domain(0, "abc", vec![])).unwrap(), "keyword:abc");
    assert_eq!(geosite_domain_expression(&domain(1, "^a$", vec![])).unwrap(), "regexp:^a$");
    assert_eq!(geosite_domain_expression(&domain(2, "a.com", vec![])).unwrap(), "domain:a.com");
    assert_eq!(geosite_domain_expression(&domain(3, "a.com", vec![])).unwrap(), "full:a.com");
    assert_eq!(geosite_domain_expression_original(&domain(2, "a.com", vec![])).unwrap(), "root_domain:a.com");
    assert_eq!(
        geosite_domain_expression(&domain(9, "x", vec![])).unwrap_err(),
        "unsupported domain type '9' for 'x'"
    );
    let with_attrs = domain(
        0,
        "ads",
        vec![
            attr("cn", None),
            attr("t", Some(TypedValue::BoolValue(true))),
            attr("f", Some(TypedValue::BoolValue(false))),
            attr("n", Some(TypedValue::IntValue(-3))),
        ],
    );
    assert_eq!(geosite_domain_expression_original_with_attrs(&with_attrs).unwrap(), "plain:ads @cn @t @f=false @n=-3");
}

#[test]
fn attributes_and_selectors_match() {
    let d = domain(2, "a.com", vec![attr("ADS", None), attr("zero", Some(TypedValue::IntValue(0)))]);
    assert!(domain_has_attribute(&d, "ads"));
    assert!(!domain_has_attribute(&d, "zero"));
    assert!(!domain_has_attribute(&d, "other"));
    let selectors = parse_geosite_selectors(&["google@ads".to_string(), "cn".to_string()]).unwrap();
    let entry = site("GOOGLE", "", vec![]);
    let matched = matched_geosite_selectors(&entry, &selectors);
    assert_eq!(matched.len(), 1);
    assert!(geosite_domain_matches_selectors(&d, &matched));
    let plain = domain(2, "b.com", vec![]);
    assert!(!geosite_domain_matches_selectors(&plain, &matched));
    assert!(geosite_domain_matches_selectors(&plain, &[]));
}

#[test]
fn dat_checks_and_kind_detection() {
    let good_site = GeoSiteList { entry: vec![site("cn", "", vec![domain(2, "a.cn", vec![])])] };
    let bad_site = GeoSiteList { entry: vec![site(" ", "", vec![domain(2, "a.cn", vec![])])] };
    let good_ip = GeoIpList { entry: vec![geoip("cn", vec![Cidr { ip: vec![1, 2, 3, 4], prefix: 8 }])] };
    assert_eq!(check_geosite_dat(Ok(good_site.clone())), Ok(good_site.clone()));
    assert_eq!(
        check_geosite_dat(Ok(bad_site.clone())),
        Err("decoded geosite payload failed structural validation".to_string())
    );
    assert_eq!(check_geoip_dat(Err("boom".to_string())), Err("boom".to_string()));
    assert_eq!(
        detect_dat_kind(Ok(good_site.clone()), Err("x".to_string())),
        Ok(ParsedDat::GeoSite(good_site.clone()))
    );
    assert_eq!(detect_dat_kind(Ok(bad_site), Ok(good_ip.clone())), Ok(ParsedDat::GeoIp(good_ip.clone())));
    assert_eq!(
        detect_dat_kind(Ok(good_site), Ok(good_ip)),
        Err("dat kind is ambiguous; please pass --kind geosite or --kind geoip".to_string())
    );
    assert_eq!(
        detect_dat_kind(Err("a".to_string()), Err("b".to_string())),
        Err("failed to identify dat kind from file contents".to_string())
    );
}
