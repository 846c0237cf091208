use greentic_i18n::cache::{I18nCache, I18nCacheConfig};
use greentic_i18n::id::{I18nError, I18nId};
use greentic_i18n::profile::{Direction, I18nProfile, ResolveMode};
use greentic_i18n::resolver::{build_fallback_chain, DefaultResolver, I18nRequest};
use greentic_i18n::tag::{
    build_parent_chain, direction_for_language, extension_value, lenient_first_day, lenient_hour_cycle,
    normalize_tag, parse_tag_details, I18nTag,
};

fn gb_profile() -> I18nProfile {
    let tag = normalize_tag("en-GB-u-ca-gregory-cu-gbp").unwrap();
    I18nProfile::new(
        tag,
        Some("GBP".to_string()),
        Direction::Ltr,
        "gregory".to_string(),
        "latn".to_string(),
        "UTC".to_string(),
        "mon".to_string(),
        "h23".to_string(),
        None,
        None,
        None,
    )
}

#[test]
fn normalize_common_tags() {
    assert_eq!(normalize_tag("en-gb").unwrap().as_str(), "en-GB");
    assert_eq!(normalize_tag("zh-hant-tw").unwrap().as_str(), "zh-Hant-TW");
    assert_eq!(
        normalize_tag("EN-us-U-ca-gregory-cu-usd").unwrap().as_str(),
        "en-US-u-ca-gregory-cu-usd"
    );
}

#[test]
fn canonical_profile_id_is_stable() {
    let profile = gb_profile();
    assert_eq!(profile.id.as_str(), "i18n:v1:KU23J7EOLPRYIEJRBTXNCBMQBA");
}

#[test]
fn resolver_precedence_prefers_content_tag() {
    let tenant = normalize_tag("en-US").unwrap();
    let resolver = DefaultResolver::new(tenant.clone(), Some("USD".to_string()));
    let request = I18nRequest {
        user_tag: Some(normalize_tag("fr-FR").unwrap()),
        session_tag: Some(normalize_tag("de-DE").unwrap()),
        content_tag: Some(normalize_tag("ar-OM").unwrap()),
        currency: None,
        timezone: None,
        mode: ResolveMode::Lenient,
    };
    let resolution = resolver.resolve(request).unwrap();
    assert_eq!(resolution.profile.tag.as_str(), "ar-OM");
    assert_eq!(resolution.fallback_chain.first().unwrap().as_str(), "ar-OM");
    assert_eq!(resolution.fallback_chain.last().unwrap(), &tenant);
}

#[test]
fn lenient_defaults_follow_region_rules() {
    let resolver = DefaultResolver::default();
    let request = I18nRequest {
        user_tag: None,
        session_tag: None,
        content_tag: Some(normalize_tag("en-US").unwrap()),
        currency: None,
        timezone: None,
        mode: ResolveMode::Lenient,
    };
    let resolution = resolver.resolve(request).unwrap();
    assert_eq!(resolution.profile.first_day, "sun");
    assert_eq!(resolution.profile.hour_cycle, "h12");
    assert_eq!(resolution.profile.direction, Direction::Ltr);
}

#[test]
fn strict_mode_requires_timezone() {
    let resolver = DefaultResolver::default();
    let request = I18nRequest {
        user_tag: None,
        session_tag: None,
        content_tag: Some(normalize_tag("en-US").unwrap()),
        currency: None,
        timezone: None,
        mode: ResolveMode::Strict,
    };
    let err = resolver.resolve(request).unwrap_err();
    assert!(matches!(err, I18nError::MissingField("timezone")));
}

#[test]
fn strict_mode_requires_calendar_and_numbering() {
    let resolver = DefaultResolver::default();
    let mut request = I18nRequest {
        user_tag: None,
        session_tag: None,
        content_tag: Some(normalize_tag("en-US").unwrap()),
        currency: None,
        timezone: Some("UTC".to_string()),
        mode: ResolveMode::Strict,
    };
    let err = resolver.resolve(request.clone()).unwrap_err();
    assert!(matches!(err, I18nError::MissingField("calendar")));

    request.content_tag = Some(normalize_tag("fr-FR-u-ca-gregory").unwrap());
    let err = resolver.resolve(request).unwrap_err();
    assert!(matches!(err, I18nError::MissingField("numbering_system")));
}

#[test]
fn resolver_precedence_table_is_deterministic() {
    let tenant_default = normalize_tag("en-US").unwrap();
    let resolver = DefaultResolver::new(tenant_default.clone(), Some("USD".to_string()));
    let cases = [
        (None, None, None, "en-US"),
        (Some("fr-FR"), None, None, "fr-FR"),
        (None, Some("de-DE"), None, "de-DE"),
        (Some("fr-FR"), Some("de-DE"), None, "de-DE"),
        (Some("fr-FR"), Some("de-DE"), Some("es-ES"), "es-ES"),
    ];

    for (user, session, content, expected) in cases {
        let request = I18nRequest {
            user_tag: user.map(|tag| normalize_tag(tag).unwrap()),
            session_tag: session.map(|tag| normalize_tag(tag).unwrap()),
            content_tag: content.map(|tag| normalize_tag(tag).unwrap()),
            currency: None,
            timezone: Some("UTC".to_string()),
            mode: ResolveMode::Lenient,
        };
        let resolution = resolver.resolve(request).unwrap();
        assert_eq!(resolution.profile.tag.as_str(), expected);
        assert_eq!(resolution.fallback_chain.first().unwrap().as_str(), expected);
    }
}

#[test]
fn lenient_mode_derives_deterministic_defaults() {
    let resolver = DefaultResolver::default();
    let request = I18nRequest {
        user_tag: None,
        session_tag: None,
        content_tag: Some(normalize_tag("ar-SA").unwrap()),
        currency: None,
        timezone: Some("Asia/Riyadh".to_string()),
        mode: ResolveMode::Lenient,
    };
    let resolution = resolver.resolve(request).unwrap();
    assert_eq!(resolution.profile.direction, Direction::Rtl);
    assert_eq!(resolution.profile.first_day, "sat");
    assert_eq!(resolution.profile.hour_cycle, "h23");
    assert_eq!(resolution.profile.calendar, "gregory");
    assert_eq!(resolution.profile.numbering_system, "latn");
    assert_eq!(resolution.profile.timezone, "Asia/Riyadh");
    assert_eq!(resolution.profile.tag.as_str(), "ar-SA");

    let fallback_request = I18nRequest {
        user_tag: None,
        session_tag: None,
        content_tag: Some(normalize_tag("en-US").unwrap()),
        currency: None,
        timezone: None,
        mode: ResolveMode::Lenient,
    };
    let fallback_resolution = resolver.resolve(fallback_request).unwrap();
    assert_eq!(fallback_resolution.profile.timezone, "UTC");
}

#[test]
fn fallback_chain_reuses_tenant_parent() {
    let tenant_default = normalize_tag("en").unwrap();
    let resolver = DefaultResolver::new(tenant_default.clone(), None);
    let request = I18nRequest {
        user_tag: None,
        session_tag: None,
        content_tag: Some(normalize_tag("en-US").unwrap()),
        currency: None,
        timezone: None,
        mode: ResolveMode::Lenient,
    };
    let resolution = resolver.resolve(request).unwrap();
    let chain: Vec<_> = resolution
        .fallback_chain
        .iter()
        .map(|tag| tag.as_str().to_string())
        .collect();
    assert_eq!(chain, vec!["en-US".to_string(), "en".to_string()]);
}

#[test]
fn cached_profile_matches_id_and_fallback_chain() {
    let resolver = DefaultResolver::default();
    let mut cache = I18nCache::new(I18nCacheConfig::default());
    let resolution = resolver
        .resolve(I18nRequest::new(Some(normalize_tag("en-US").unwrap()), None))
        .unwrap();
    cache.cache_resolution(&resolution);
    let cached = cache.get_snapshot(&resolution.id).expect("missing cache entry");
    assert_eq!(cached.profile.id, resolution.id);
    assert_eq!(cached.fallback_chain, resolution.fallback_chain);
    assert_eq!(I18nId::from_profile(&cached.profile), resolution.id);
}

fn cache_three(max_entries: usize) -> (I18nCache, I18nId, I18nId, I18nId) {
    let resolver = DefaultResolver::default();
    let mut cache = I18nCache::new(I18nCacheConfig { max_entries });
    let mut ids = Vec::new();
    for tag in ["en-US", "fr-FR", "ar-OM"] {
        let resolution = resolver
            .resolve(I18nRequest::new(Some(normalize_tag(tag).unwrap()), None))
            .unwrap();
        cache.cache_resolution(&resolution);
        ids.push(resolution.id);
    }
    (cache, ids[0], ids[1], ids[2])
}

#[test]
fn cache_respects_max_entries_limit() {
    let (cache, first, second, third) = cache_three(2);
    assert!(cache.get(&first).is_none());
    assert!(cache.get(&second).is_some());
    assert!(cache.get(&third).is_some());
}

#[test]
fn cache_retains_most_recent_inserts() {
    let (cache, first, second, third) = cache_three(2);
    assert!(cache.get(&first).is_none(), "oldest entry should be evicted");
    assert!(cache.get(&second).is_some(), "second entry should be retained");
    assert!(cache.get(&third).is_some(), "new entry should be retained");
}

#[test]
fn fallback_chain_includes_parents() {
    let tenant = normalize_tag("en-US").unwrap();
    let resolver = DefaultResolver::new(tenant.clone(), None);
    let request = I18nRequest {
        user_tag: None,
        session_tag: None,
        content_tag: Some(normalize_tag("en-GB").unwrap()),
        currency: None,
        timezone: None,
        mode: ResolveMode::Lenient,
    };
    let resolution = resolver.resolve(request).unwrap();
    assert!(resolution.fallback_chain.iter().any(|tag| tag.as_str() == "en-GB"));
    assert!(resolution.fallback_chain.iter().any(|tag| tag.as_str() == "en"));
    assert_eq!(resolution.fallback_chain.last().unwrap(), &tenant);
}

// ---------------------------------------------------------------------------
// Further cases
// ---------------------------------------------------------------------------

#[test]
fn empty_tags_are_rejected() {
    assert!(matches!(normalize_tag(""), Err(I18nError::EmptyTag)));
    assert!(matches!(normalize_tag("  --  "), Err(I18nError::EmptyTag)));
    assert!(matches!(I18nTag::new("\t"), Err(I18nError::EmptyTag)));
}

#[test]
fn canonicalizing_twice_changes_nothing() {
    for raw in ["en-gb", "zh-hant-tw", "EN-us-U-ca-gregory-cu-usd", "sr_latn", " de-ch "] {
        let once = normalize_tag(raw).unwrap();
        let twice = normalize_tag(once.as_str()).unwrap();
        assert_eq!(once, twice);
    }
}

#[test]
fn id_text_round_trips_through_parse() {
    let id = gb_profile().id;
    let text = id.as_str();
    assert_eq!(I18nId::parse(&text).unwrap(), id);
    assert_eq!(I18nId::parse(&text.to_lowercase()).unwrap(), id);
    assert_eq!(I18nId::zero().as_str(), "i18n:v1:AAAAAAAAAAAAAAAAAAAAAAAAAA");
    assert_eq!(id.version(), "v1");
    assert_eq!(id.bytes().len(), 16);
}

#[test]
fn malformed_ids_are_rejected() {
    assert!(matches!(I18nId::parse("i18n:v2:KU23J7EOLPRYIEJRBTXNCBMQBA"), Err(I18nError::InvalidId(_))));
    assert!(matches!(I18nId::parse("KU23J7EOLPRYIEJRBTXNCBMQBA"), Err(I18nError::InvalidId(_))));
    assert!(matches!(I18nId::parse("i18n:v1:AB"), Err(I18nError::InvalidId(_)) | Err(I18nError::DecodeId(_))));
    assert!(matches!(I18nId::parse("i18n:v1:!!!!!!!!!!!!!!!!!!!!!!!!!!"), Err(_)));
}

#[test]
fn error_messages_name_the_problem() {
    assert_eq!(I18nError::EmptyTag.message(), "locale tag cannot be empty");
    assert_eq!(I18nError::InvalidId("x".to_string()).message(), "invalid I18nId `x`");
    assert_eq!(I18nError::MissingField("timezone").message(), "missing required field `timezone`");
    match I18nId::parse("i18n:v1:A") {
        Err(err @ I18nError::DecodeId(_)) => assert!(err.message().starts_with("failed to decode I18nId: ")),
        Err(other) => assert!(!other.message().is_empty()),
        Ok(_) => panic!("a one-symbol payload is not an identifier"),
    }
}

#[test]
fn different_profiles_get_different_ids() {
    let a = gb_profile();
    let b = I18nProfile::new(
        normalize_tag("fr-FR").unwrap(),
        Some("EUR".to_string()),
        Direction::Ltr,
        "gregory".to_string(),
        "latn".to_string(),
        "UTC".to_string(),
        "mon".to_string(),
        "h23".to_string(),
        None,
        None,
        None,
    );
    assert_ne!(a.id, b.id);
    assert_eq!(b.decimal_separator, ',');
    assert_eq!(a.decimal_separator, '.');
    assert_eq!(I18nId::from_profile(&a), a.id);
}

#[test]
fn tag_details_read_region_and_extensions() {
    let tag = normalize_tag("en-US-u-ca-gregory-nu-latn").unwrap();
    let details = parse_tag_details(&tag);
    assert_eq!(details.language, "en");
    assert_eq!(details.region.as_deref(), Some("US"));
    assert_eq!(extension_value(&details, "ca").as_deref(), Some("gregory"));
    assert_eq!(extension_value(&details, "nu").as_deref(), Some("latn"));
    assert_eq!(extension_value(&details, "cu"), None);
    assert_eq!(lenient_first_day(details.region.as_deref()), "sun");
    assert_eq!(lenient_hour_cycle(details.region.as_deref()), "h12");
    assert_eq!(direction_for_language(&"he".to_string()), Direction::Rtl);
    assert_eq!(direction_for_language(&"de".to_string()), Direction::Ltr);
    let de = parse_tag_details(&normalize_tag("de-DE").unwrap());
    assert_eq!(lenient_first_day(de.region.as_deref()), "mon");
    assert_eq!(lenient_hour_cycle(de.region.as_deref()), "h23");
}

#[test]
fn parent_chain_runs_from_specific_to_general() {
    let tag = normalize_tag("zh-Hant-TW").unwrap();
    let chain: Vec<String> = build_parent_chain(&tag).iter().map(|t| t.as_str().to_string()).collect();
    assert_eq!(chain, vec!["zh-Hant-TW", "zh-Hant-TW", "zh-Hant", "zh"]);
    let tenant = normalize_tag("en").unwrap();
    let fallback: Vec<String> =
        build_fallback_chain(&tag, &tenant).iter().map(|t| t.as_str().to_string()).collect();
    assert_eq!(fallback, vec!["zh-Hant-TW", "zh-Hant", "zh", "en"]);
}

#[test]
fn canonical_bytes_start_with_a_map_header() {
    let profile = gb_profile();
    let bytes = profile.canonical_bytes();
    assert_eq!(bytes[0], 0xa9);
    assert_eq!(&bytes[1..10], &[0x68, b'c', b'a', b'l', b'e', b'n', b'd', b'a', b'r']);
}

#[test]
fn request_builders_set_fields() {
    let req = I18nRequest::new(Some(normalize_tag("fr").unwrap()), Some("EUR".to_string()))
        .with_mode(ResolveMode::Strict)
        .with_timezone("Europe/Paris");
    assert_eq!(req.mode, ResolveMode::Strict);
    assert_eq!(req.timezone.as_deref(), Some("Europe/Paris"));
    assert_eq!(req.currency.as_deref(), Some("EUR"));
    assert!(req.user_tag.is_none());
}

#[test]
fn cache_keeps_a_single_entry_when_limit_is_zero() {
    let (cache, first, second, third) = cache_three(0);
    assert!(cache.get(&first).is_none());
    assert!(cache.get(&second).is_none());
    assert!(cache.get(&third).is_some());
}

#[test]
fn ascii_whitespace_is_trimmed_from_tags() {
    assert_eq!(normalize_tag("\u{b}\u{c}\r\n\t en-gb \t").unwrap().as_str(), "en-GB");
}

#[test]
fn reinserting_a_key_makes_it_recent_again() {
    let resolver = DefaultResolver::default();
    let mut cache = I18nCache::new(I18nCacheConfig { max_entries: 2 });
    let mut ids = Vec::new();
    for tag in ["en-US", "fr-FR", "en-US", "ar-OM"] {
        let resolution = resolver
            .resolve(I18nRequest::new(Some(normalize_tag(tag).unwrap()), None))
            .unwrap();
        cache.cache_resolution(&resolution);
        ids.push(resolution.id);
    }
    assert!(cache.get(&ids[0]).is_some(), "re-inserted entry should be retained");
    assert!(cache.get(&ids[1]).is_none(), "entry not inserted again should be evicted");
    assert!(cache.get(&ids[3]).is_some(), "newest entry should be retained");
}
