//! Resolving a request to a profile: tag precedence, fallback chain,
//! extension-driven fields and the lenient/strict defaults.
use vstd::prelude::*;
use crate::tag::{
    I18nTag, tag_pieces, extension_pieces, extension_value_of, language_of,
    region_of, direction_of_language, first_day_of, hour_cycle_of, parent_chain_of,
    parse_tag_details, extension_value, direction_for_language, lenient_first_day,
    lenient_hour_cycle, build_parent_chain,
};
use crate::text::{starts_with, str_starts_with};
use vstd::std_specs::convert::IntoSpec;
use crate::id::{I18nId, I18nError, profile_id_bytes};
use crate::profile::{I18nProfile, ProfileModel, Direction, ResolveMode, opt_text};

verus! {

/// The texts of a sequence of tags.
pub open spec fn tags_view(s: Seq<I18nTag>) -> Seq<Seq<char>> {
    Seq::new(s.len(), |i: int| s[i]@)
}

/// `,` for French (`fr-` tags), `.` otherwise.
pub open spec fn decimal_separator_of(tag: Seq<char>) -> char {
    if starts_with(tag, "fr-"@) {
        ','
    } else {
        '.'
    }
}

pub fn decimal_separator_for_tag(tag: &I18nTag) -> (c: char)
    ensures
        c == decimal_separator_of(tag@),
{
    if str_starts_with(tag.as_str(), "fr-") {
        ','
    } else {
        '.'
    }
}

pub fn lenient_calendar() -> (s: String)
    ensures
        s@ == "gregory"@,
{
    "gregory".to_string()
}

pub fn lenient_numbering_system() -> (s: String)
    ensures
        s@ == "latn"@,
{
    "latn".to_string()
}

impl I18nProfile {
    /// A profile with the given fields; the decimal separator follows the
    /// tag and the identifier is computed from the other fields.
    pub fn new(
        tag: I18nTag,
        currency: Option<String>,
        direction: Direction,
        calendar: String,
        numbering_system: String,
        timezone: String,
        first_day: String,
        hour_cycle: String,
        collation: Option<String>,
        case_first: Option<String>,
        units: Option<String>,
    ) -> (p: Self)
        ensures
            p.model() == (ProfileModel {
                tag: tag@,
                currency: opt_text(currency),
                decimal_separator: decimal_separator_of(tag@),
                direction: direction,
                calendar: calendar@,
                numbering_system: numbering_system@,
                timezone: timezone@,
                first_day: first_day@,
                hour_cycle: hour_cycle@,
                collation: opt_text(collation),
                case_first: opt_text(case_first),
                units: opt_text(units),
            }),
            p.id@ == profile_id_bytes(p.model()),
    {
        let decimal_separator = decimal_separator_for_tag(&tag);
        let mut profile = I18nProfile {
            tag,
            currency,
            decimal_separator,
            direction,
            calendar,
            numbering_system,
            timezone,
            first_day,
            hour_cycle,
            collation,
            case_first,
            units,
            id: I18nId::zero(),
        };
        let id = I18nId::from_profile(&profile);
        profile.id = id;
        profile
    }

    /// The canonical CBOR bytes the identifier is computed from.
    pub fn canonical_bytes(&self) -> (b: Vec<u8>)
        ensures
            b@ == crate::cbor::canonical_profile_bytes(self.model()),
    {
        crate::cbor::encode_canonical_profile(self)
    }
}

/// The tags of the chain with later repeats removed.
pub open spec fn dedup_texts(s: Seq<Seq<char>>) -> Seq<Seq<char>>
    decreases s.len(),
{
    if s.len() == 0 {
        Seq::empty()
    } else {
        let d = dedup_texts(s.drop_last());
        if d.contains(s.last()) {
            d
        } else {
            d.push(s.last())
        }
    }
}

/// Parents of the chosen tag without repeats, then the tenant default when
/// it is not already there.
pub open spec fn fallback_chain_of(chosen: Seq<char>, tenant: Seq<char>) -> Seq<Seq<char>> {
    let d = dedup_texts(parent_chain_of(chosen));
    if d.contains(tenant) {
        d
    } else {
        d.push(tenant)
    }
}

fn chain_contains(chain: &Vec<I18nTag>, tag: &I18nTag) -> (r: bool)
    ensures
        r == tags_view(chain@).contains(tag@),
{
    let mut i: usize = 0;
    while i < chain.len()
        invariant
            i <= chain.len(),
            forall|j: int| 0 <= j < i ==> chain@[j]@ != tag@,
        decreases chain.len() - i,
    {
        if chain[i].same_as(tag) {
            assert(tags_view(chain@)[i as int] == tag@);
            return true;
        }
        i = i + 1;
    }
    assert(!tags_view(chain@).contains(tag@)) by {
        if tags_view(chain@).contains(tag@) {
            let k = choose|k: int| 0 <= k < tags_view(chain@).len() && tags_view(chain@)[k] == tag@;
            assert(chain@[k]@ == tag@);
        }
    }
    false
}

/// The chosen tag, its parents, then the tenant default, without repeats.
pub fn build_fallback_chain(final_tag: &I18nTag, tenant_default: &I18nTag) -> (chain: Vec<I18nTag>)
    ensures
        tags_view(chain@) == fallback_chain_of(final_tag@, tenant_default@),
{
    let mut chain: Vec<I18nTag> = Vec::new();
    let parents = build_parent_chain(final_tag);
    let ghost pv = tags_view(parents@);
    assert(pv == parent_chain_of(final_tag@));
    let mut i: usize = 0;
    while i < parents.len()
        invariant
            i <= parents.len(),
            pv == tags_view(parents@),
            tags_view(chain@) == dedup_texts(pv.take(i as int)),
        decreases parents.len() - i,
    {
        let tag = &parents[i];
        assert(pv.take(i + 1).drop_last() =~= pv.take(i as int));
        assert(pv.take(i + 1).last() == tag@);
        if !chain_contains(&chain, tag) {
            let ghost before = tags_view(chain@);
            chain.push(tag.duplicate());
            assert(tags_view(chain@) =~= before.push(tag@));
        }
        i = i + 1;
    }
    assert(pv.take(parents.len() as int) =~= pv);
    if !chain_contains(&chain, tenant_default) {
        let ghost before = tags_view(chain@);
        chain.push(tenant_default.duplicate());
        assert(tags_view(chain@) =~= before.push(tenant_default@));
    }
    chain
}

/// A resolution request; the most specific tag present wins
/// (content, then session, then user, then the tenant default).
#[derive(Debug, Clone)]
pub struct I18nRequest {
    pub user_tag: Option<I18nTag>,
    pub session_tag: Option<I18nTag>,
    pub content_tag: Option<I18nTag>,
    pub currency: Option<String>,
    pub timezone: Option<String>,
    pub mode: ResolveMode,
}

impl I18nRequest {
    /// A lenient request for a content tag.
    pub fn new(tag: Option<I18nTag>, currency: Option<String>) -> (r: Self)
        ensures
            r.user_tag is None,
            r.session_tag is None,
            r.content_tag == tag,
            r.currency == currency,
            r.timezone is None,
            r.mode == ResolveMode::Lenient,
    {
        Self {
            user_tag: None,
            session_tag: None,
            content_tag: tag,
            currency,
            timezone: None,
            mode: ResolveMode::Lenient,
        }
    }

    pub fn with_mode(self, mode: ResolveMode) -> (r: Self)
        ensures
            r == (I18nRequest { mode, ..self }),
    {
        let mut out = self;
        out.mode = mode;
        out
    }

    pub fn with_timezone<T: Into<String>>(self, tz: T) -> (r: Self)
        ensures
            r.user_tag == self.user_tag,
            r.session_tag == self.session_tag,
            r.content_tag == self.content_tag,
            r.currency == self.currency,
            r.mode == self.mode,
            r.timezone is Some,
            T::obeys_into_spec() ==> r.timezone == Some(tz.into_spec()),
    {
        let mut out = self;
        out.timezone = Some(tz.into());
        out
    }
}

/// A resolved profile with its identifier and fallback chain.
#[derive(Debug, Clone)]
pub struct I18nResolution {
    pub id: I18nId,
    pub profile: I18nProfile,
    pub fallback_chain: Vec<I18nTag>,
}

/// Resolves requests to profiles.
pub trait I18nResolver: Send + Sync + 'static {
    fn resolve(&self, req: I18nRequest) -> Result<I18nResolution, I18nError>;
}

/// The resolver with a tenant default tag and currency.
pub struct DefaultResolver {
    tenant_default: I18nTag,
    default_currency: Option<String>,
}

/// The tag a request resolves to.
pub open spec fn chosen_tag_of(req: I18nRequest, tenant: Seq<char>) -> Seq<char> {
    match req.content_tag {
        Some(t) => t@,
        None => match req.session_tag {
            Some(t) => t@,
            None => match req.user_tag {
                Some(t) => t@,
                None => tenant,
            },
        },
    }
}

/// Value of an extension key of the chosen tag.
pub open spec fn ext_of(tag: Seq<char>, key: Seq<char>) -> Option<Seq<char>> {
    extension_value_of(extension_pieces(tag_pieces(tag)), key)
}

pub open spec fn or_else(o: Option<Seq<char>>, d: Seq<char>) -> Seq<char> {
    match o {
        Some(v) => v,
        None => d,
    }
}

/// In strict mode, the first field that neither the tag nor the request provides.
pub open spec fn missing_field_of(req: I18nRequest, tag: Seq<char>) -> Option<Seq<char>> {
    if req.mode == ResolveMode::Strict && ext_of(tag, "tz"@) is None && req.timezone is None {
        Some("timezone"@)
    } else if req.mode == ResolveMode::Strict && ext_of(tag, "ca"@) is None {
        Some("calendar"@)
    } else if req.mode == ResolveMode::Strict && ext_of(tag, "nu"@) is None {
        Some("numbering_system"@)
    } else {
        None
    }
}

/// The profile fields a request resolves to.
pub open spec fn resolved_model(
    req: I18nRequest,
    tenant: Seq<char>,
    default_currency: Option<Seq<char>>,
) -> ProfileModel {
    let tag = chosen_tag_of(req, tenant);
    let ps = tag_pieces(tag);
    ProfileModel {
        tag: tag,
        currency: match opt_text(req.currency) {
            Some(c) => Some(c),
            None => default_currency,
        },
        decimal_separator: decimal_separator_of(tag),
        direction: direction_of_language(language_of(ps)),
        calendar: or_else(ext_of(tag, "ca"@), "gregory"@),
        numbering_system: or_else(ext_of(tag, "nu"@), "latn"@),
        timezone: match ext_of(tag, "tz"@) {
            Some(v) => v,
            None => or_else(opt_text(req.timezone), "UTC"@),
        },
        first_day: first_day_of(region_of(ps)),
        hour_cycle: hour_cycle_of(region_of(ps)),
        collation: ext_of(tag, "co"@),
        case_first: ext_of(tag, "kf"@),
        units: ext_of(tag, "unit"@),
    }
}

fn first_tag(req: &I18nRequest, tenant: &I18nTag) -> (t: I18nTag)
    ensures
        t@ == chosen_tag_of(*req, tenant@),
{
    match &req.content_tag {
        Some(t) => t.duplicate(),
        None => match &req.session_tag {
            Some(t) => t.duplicate(),
            None => match &req.user_tag {
                Some(t) => t.duplicate(),
                None => tenant.duplicate(),
            },
        },
    }
}

fn copy_opt(o: &Option<String>) -> (r: Option<String>)
    ensures
        opt_text(r) == opt_text(*o),
{
    match o {
        Some(s) => Some(s.clone()),
        None => None,
    }
}

impl DefaultResolver {
    pub closed spec fn tenant(&self) -> Seq<char> {
        self.tenant_default@
    }

    pub closed spec fn currency(&self) -> Option<Seq<char>> {
        opt_text(self.default_currency)
    }

    pub fn new(tenant_default: I18nTag, default_currency: Option<String>) -> (r: Self)
        ensures
            r.tenant() == tenant_default@,
            r.currency() == opt_text(default_currency),
    {
        Self { tenant_default, default_currency }
    }

    /// Resolves a request: the most specific tag present, its extension
    /// values (or the lenient defaults), the region conventions and the
    /// fallback chain. In strict mode, timezone, calendar and numbering
    /// system must be provided.
    pub fn resolve(&self, req: I18nRequest) -> (r: Result<I18nResolution, I18nError>)
        ensures
            match missing_field_of(req, chosen_tag_of(req, self.tenant())) {
                Some(field) => r matches Err(I18nError::MissingField(f)) && f@ == field,
                None => r matches Ok(res) && {
                    &&& res.profile.model() == resolved_model(req, self.tenant(), self.currency())
                    &&& res.profile.id@ == profile_id_bytes(res.profile.model())
                    &&& res.id == res.profile.id
                    &&& tags_view(res.fallback_chain@) == fallback_chain_of(
                        chosen_tag_of(req, self.tenant()),
                        self.tenant(),
                    )
                },
            },
    {
        let currency = match &req.currency {
            Some(c) => Some(c.clone()),
            None => copy_opt(&self.default_currency),
        };
        let chosen_tag = first_tag(&req, &self.tenant_default);
        let fallback_chain = build_fallback_chain(&chosen_tag, &self.tenant_default);
        let details = parse_tag_details(&chosen_tag);
        proof {
            assert(details.extension_subtags() == extension_pieces(tag_pieces(chosen_tag@)));
        }
        let direction = direction_for_language(&details.language);

        let tz_ext = extension_value(&details, "tz");
        let ca_ext = extension_value(&details, "ca");
        let nu_ext = extension_value(&details, "nu");
        let strict = match req.mode {
            ResolveMode::Strict => true,
            ResolveMode::Lenient => false,
        };
        if strict && tz_ext.is_none() && req.timezone.is_none() {
            return Err(I18nError::MissingField("timezone"));
        }
        if strict && ca_ext.is_none() {
            return Err(I18nError::MissingField("calendar"));
        }
        if strict && nu_ext.is_none() {
            return Err(I18nError::MissingField("numbering_system"));
        }

        let calendar = match ca_ext {
            Some(v) => v,
            None => lenient_calendar(),
        };
        let numbering_system = match nu_ext {
            Some(v) => v,
            None => lenient_numbering_system(),
        };
        let timezone = match tz_ext {
            Some(v) => v,
            None => match &req.timezone {
                Some(t) => t.clone(),
                None => "UTC".to_string(),
            },
        };
        let first_day = lenient_first_day(
            match &details.region {
                Some(r) => Some(r.as_str()),
                None => None,
            },
        ).to_string();
        let hour_cycle = lenient_hour_cycle(
            match &details.region {
                Some(r) => Some(r.as_str()),
                None => None,
            },
        ).to_string();
        let collation = extension_value(&details, "co");
        let case_first = extension_value(&details, "kf");
        let units = extension_value(&details, "unit");

        let profile = I18nProfile::new(
            chosen_tag,
            currency,
            direction,
            calendar,
            numbering_system,
            timezone,
            first_day,
            hour_cycle,
            collation,
            case_first,
            units,
        );
        let id = profile.id;
        Ok(I18nResolution { id, profile, fallback_chain })
    }
}

impl I18nResolver for DefaultResolver {
    /// As `DefaultResolver::resolve`.
    fn resolve(&self, req: I18nRequest) -> (r: Result<I18nResolution, I18nError>)
        ensures
            match missing_field_of(req, chosen_tag_of(req, self.tenant())) {
                Some(field) => r matches Err(I18nError::MissingField(f)) && f@ == field,
                None => r matches Ok(res) && {
                    &&& res.profile.model() == resolved_model(req, self.tenant(), self.currency())
                    &&& res.profile.id@ == profile_id_bytes(res.profile.model())
                    &&& res.id == res.profile.id
                    &&& tags_view(res.fallback_chain@) == fallback_chain_of(
                        chosen_tag_of(req, self.tenant()),
                        self.tenant(),
                    )
                },
            },
    {
        DefaultResolver::resolve(self, req)
    }
}

impl Default for DefaultResolver {
    /// Tenant default `en-US`, currency `USD`.
    fn default() -> (r: Self)
        ensures
            r.tenant() == "en-US"@,
            r.currency() == Some("USD"@),
    {
        Self {
            tenant_default: I18nTag::from_canonical("en-US".to_string()),
            default_currency: Some("USD".to_string()),
        }
    }
}

} // verus!
