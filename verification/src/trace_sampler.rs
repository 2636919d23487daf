//! Which requests are traced.

use crate::binary64::{
    hash_threshold, hashes_below_threshold_are_the_share, lemma_clamped_is_unit,
    lemma_full_threshold, lemma_thresholds_grow, product_mag,
    tenth_lies_between_sixteenth_and_eighth, unit_units, units, Binary64, HIDDEN, TENTH,
};
use crate::config::texts;
use crate::headers::{
    all_visible_bytes, field_text, get_text, has_room_for, header_fields, is_header_name, is_visible_text,
    lemma_known_names, lemma_room, lemma_shown_is_visible, set_text, text_round_trip, was_full,
    with_text, HeadersFull,
};
use crate::random::{is_drawn_word, Draw, Generator};
use crate::span_context::{
    generate_request_id, generate_request_id_from, generated_ids_fit_headers, is_generated_id,
    marks_canary,
};
use crate::text::{ascii_lower, hex, is_spelled, lemma_spelled, str_eq};
use crate::types::CANARY_HEADER;
use http::header::HeaderMap;
use regex::Regex;
use std::hash::{Hash, Hasher};
use twox_hash::XxHash64;
use vstd::arithmetic::power2::pow2;
use vstd::prelude::*;
use vstd::string::StringExecFns;

verus! {

/// The header that says whether a request is traced.
pub const SAMPLED_HEADER: &'static str = "x-trace-sampled";

/// The header that carries the identifier of a trace.
pub const TRACE_ID_HEADER: &'static str = "x-trace-id";

/// `regex::Regex`, a compiled pattern.
#[verifier::external_type_specification]
#[verifier::external_body]
pub struct ExRegex(regex::Regex);

/// The texts that a compiled pattern matches.
pub uninterp spec fn regex_language(r: regex::Regex) -> Set<Seq<char>>;

/// What a pattern compiles to: the texts it matches, or nothing where it is faulty or
/// too large.
pub uninterp spec fn compiled_pattern(pattern: Seq<char>) -> Option<Set<Seq<char>>>;

/// The hash of a text.
pub uninterp spec fn text_hash(text: Seq<char>) -> u64;

/// `regex::Regex::new`: compiles a pattern.
#[verifier::external_body]
pub(crate) fn compile_pattern(pattern: &str) -> (r: Option<Regex>)
    ensures
        match r {
            Some(re) => compiled_pattern(pattern@) == Some(regex_language(re)),
            None => compiled_pattern(pattern@) is None,
        },
{
    Regex::new(pattern).ok()
}

/// `regex::Regex::is_match`: whether the pattern matches anywhere in the text.
#[verifier::external_body]
pub(crate) fn pattern_matches(re: &Regex, text: &str) -> (r: bool)
    ensures
        r == regex_language(*re).contains(text@),
{
    re.is_match(text)
}

/// `twox_hash::XxHash64` with its default seed, fed with a text by `std`'s `Hash`.
#[verifier::external_body]
pub(crate) fn hash_url(url: &str) -> (r: u64)
    ensures
        r == text_hash(url@),
{
    let mut hasher = XxHash64::default();
    url.hash(&mut hasher);
    hasher.finish()
}

/// Whether a request is traced, why, and under which identifier.
#[derive(Debug)]
pub struct SamplingDecision {
    pub sampled: bool,
    pub reason: SamplingReason,
    pub trace_id: String,
}

/// Why a request is traced, or that it is not.
#[derive(Debug, Clone, Copy, PartialEq, Eq, Structural)]
pub enum SamplingReason {
    NotSampled,
    Percentage,
    CanaryForced,
    UrlRegex,
    HeaderForced,
}

impl SamplingReason {
    /// The name of the reason.
    pub open spec fn name(self) -> Seq<char> {
        match self {
            SamplingReason::NotSampled => "NotSampled"@,
            SamplingReason::Percentage => "Percentage"@,
            SamplingReason::CanaryForced => "CanaryForced"@,
            SamplingReason::UrlRegex => "UrlRegex"@,
            SamplingReason::HeaderForced => "HeaderForced"@,
        }
    }
}

/// How requests are chosen for tracing.
#[derive(Debug)]
pub struct SamplerConfig {
    pub percentage: Binary64,
    pub force_canary: bool,
    pub url_patterns: Vec<String>,
}

/// What a sampler configuration says.
pub struct SamplerConfigView {
    pub percentage: Binary64,
    pub force_canary: bool,
    pub url_patterns: Seq<Seq<char>>,
}

impl View for SamplerConfig {
    type V = SamplerConfigView;

    open spec fn view(&self) -> SamplerConfigView {
        SamplerConfigView {
            percentage: self.percentage,
            force_canary: self.force_canary,
            url_patterns: texts(self.url_patterns@),
        }
    }
}

/// The binary64 pattern of one hundredth.
pub const HUNDREDTH: u64 = 0x3f84_7ae1_47ae_147b;

/// The sampling that the gateway starts with: one request in a hundred, all canary
/// traffic, and all requests for orders.
pub open spec fn default_sampler_config() -> SamplerConfigView {
    SamplerConfigView {
        percentage: Binary64 { bits: HUNDREDTH },
        force_canary: true,
        url_patterns: seq!["^/api/v1/orders/.*"@],
    }
}

impl Default for SamplerConfig {
    fn default() -> (r: Self)
        ensures
            r@ == default_sampler_config(),
    {
        let patterns: Vec<String> = vec!["^/api/v1/orders/.*".to_string()];
        assert(texts(patterns@) =~= seq!["^/api/v1/orders/.*"@]);
        SamplerConfig {
            percentage: Binary64 { bits: HUNDREDTH },
            force_canary: true,
            url_patterns: patterns,
        }
    }
}

/// Whether the headers demand a trace, or forbid it.
pub open spec fn demanded(fields: Map<Seq<char>, Seq<Seq<u8>>>) -> Option<bool> {
    match field_text(fields, SAMPLED_HEADER@) {
        Some(v) => if v == "1"@ || ascii_lower(v) == ascii_lower("true"@) {
            Some(true)
        } else if v == "0"@ || ascii_lower(v) == ascii_lower("false"@) {
            Some(false)
        } else {
            None
        },
        None => None,
    }
}

/// Some pattern of the list compiles and matches the address.
pub open spec fn url_matches(patterns: Seq<Seq<char>>, url: Seq<char>) -> bool {
    exists|i: int|
        0 <= i < patterns.len() && (#[trigger] compiled_pattern(patterns[i]) matches Some(
            language,
        ) && language.contains(url))
}

/// The request is in the share that is traced: its hash lies below the share, or else a
/// random number lies below a tenth of it.
pub open spec fn in_share(percentage: Binary64, hash: u64, word: u64) -> bool {
    let share = percentage.unit_clamped();
    &&& !percentage.is_nan() && percentage.value() > 0
    &&& hash < hash_threshold(share) || unit_units(word) < units(
        product_mag(share.mag(), TENTH as nat),
    )
}

impl SamplerConfigView {
    /// What is decided without regard to the share, if anything.
    pub open spec fn ruling(
        self,
        fields: Map<Seq<char>, Seq<Seq<u8>>>,
        url: Seq<char>,
    ) -> Option<(bool, SamplingReason)> {
        self.ruling_with(fields, url_matches(self.url_patterns, url))
    }

    /// What is decided without regard to the share, if anything, where it is known
    /// whether a pattern matched the address.
    pub open spec fn ruling_with(
        self,
        fields: Map<Seq<char>, Seq<Seq<u8>>>,
        matched: bool,
    ) -> Option<(bool, SamplingReason)> {
        match demanded(fields) {
            Some(true) => Some((true, SamplingReason::HeaderForced)),
            Some(false) => Some((false, SamplingReason::NotSampled)),
            None => if self.force_canary && marks_canary(fields) {
                Some((true, SamplingReason::CanaryForced))
            } else if matched {
                Some((true, SamplingReason::UrlRegex))
            } else {
                None
            },
        }
    }

    /// What is decided of a request with that hash, when chance gives that word.
    pub open spec fn verdict(
        self,
        fields: Map<Seq<char>, Seq<Seq<u8>>>,
        url: Seq<char>,
        hash: u64,
        word: u64,
    ) -> (bool, SamplingReason) {
        match self.ruling(fields, url) {
            Some(r) => r,
            None => if in_share(self.percentage, hash, word) {
                (true, SamplingReason::Percentage)
            } else {
                (false, SamplingReason::NotSampled)
            },
        }
    }

    /// A decision on a request with that hash: the ruling, or else what follows from a
    /// word that chance gave.
    pub open spec fn may_decide(
        self,
        fields: Map<Seq<char>, Seq<Seq<u8>>>,
        url: Seq<char>,
        hash: u64,
        decision: (bool, SamplingReason),
    ) -> bool {
        match self.ruling(fields, url) {
            Some(r) => decision == r,
            None => exists|word: u64| #[trigger]
                is_drawn_word(word) && decision == self.verdict(fields, url, hash, word),
        }
    }
}

impl SamplerConfigView {
    /// A decision for which the generator gave just that: bytes for an identifier where the
    /// headers have none, and one word where there is no ruling.
    pub open spec fn is_decided_by(
        self,
        fields: Map<Seq<char>, Seq<Seq<u8>>>,
        url: Seq<char>,
        trace_id: Seq<char>,
        decision: (bool, SamplingReason),
        drawn: Seq<Draw>,
    ) -> bool {
        let own = field_text(fields, TRACE_ID_HEADER@);
        let first: nat = if own is Some {
            0
        } else {
            1
        };
        &&& own matches Some(text) ==> trace_id == text
        &&& own is None ==> drawn.len() > 0 && (drawn[0] matches Draw::Bytes(bytes)
            && bytes.len() == 16 && trace_id == hex(bytes))
        &&& match self.ruling(fields, url) {
            Some(r) => drawn.len() == first && decision == r,
            None => drawn.len() == first + 1 && (drawn[first as int] matches Draw::Word(word)
                && decision == self.verdict(
                fields,
                url,
                text_hash(hashed_text(trace_id, url)),
                word,
            )),
        }
    }
}

/// The identifier of a trace: that of the headers, or else a random one.
pub open spec fn is_trace_id(fields: Map<Seq<char>, Seq<Seq<u8>>>, id: Seq<char>) -> bool {
    match field_text(fields, TRACE_ID_HEADER@) {
        Some(text) => id == text,
        None => is_generated_id(id),
    }
}

/// The decision on a request, as it comes out of one attempt with a generator that had given
/// nothing before.
pub open spec fn is_one_decision(
    sampler: DefaultSampler,
    headers: HeaderMap,
    url: &str,
    r: SamplingDecision,
) -> bool {
    exists|generator: &mut Generator|
        (*generator)@ == Seq::<Draw>::empty() && #[trigger] call_ensures(
            DefaultSampler::should_sample_from,
            (&sampler, &headers, url, generator),
            r,
        )
}

/// What is hashed for a request.
pub open spec fn hashed_text(trace_id: Seq<char>, url: Seq<char>) -> Seq<char> {
    trace_id + "|"@ + url
}

/// Chooses requests for tracing.
pub trait TraceSampler: Send + Sync {
    fn should_sample(&self, headers: &HeaderMap, url: &str) -> SamplingDecision;

    fn update_config(&mut self, config: SamplerConfig);
}

/// The texts that compiled patterns match.
pub open spec fn languages(regexes: Seq<Regex>) -> Seq<Set<Seq<char>>> {
    regexes.map_values(|r: Regex| regex_language(r))
}

/// What the patterns of a list compile to, without those that do not compile.
pub open spec fn compiled_all(patterns: Seq<Seq<char>>) -> Seq<Set<Seq<char>>>
    decreases patterns.len(),
{
    if patterns.len() == 0 {
        Seq::empty()
    } else {
        let before = compiled_all(patterns.drop_last());
        match compiled_pattern(patterns.last()) {
            Some(language) => before.push(language),
            None => before,
        }
    }
}

/// A text is matched by a list of patterns when one of those that compiled matches it.
proof fn lemma_url_matches(patterns: Seq<Seq<char>>, url: Seq<char>)
    ensures
        url_matches(patterns, url) <==> exists|i: int|
            0 <= i < compiled_all(patterns).len() && (#[trigger] compiled_all(patterns)[i]).contains(
                url,
            ),
    decreases patterns.len(),
{
    if patterns.len() > 0 {
        let init = patterns.drop_last();
        lemma_url_matches(init, url);
        let all = compiled_all(patterns);
        let before = compiled_all(init);
        if url_matches(patterns, url) {
            let i = choose|i: int|
                0 <= i < patterns.len() && (#[trigger] compiled_pattern(patterns[i]) matches Some(
                    language,
                ) && language.contains(url));
            if i < init.len() {
                assert(compiled_pattern(init[i]) is Some);
                assert(url_matches(init, url));
                let j = choose|j: int|
                    0 <= j < before.len() && (#[trigger] before[j]).contains(url);
                assert(all[j] == before[j]);
            } else {
                assert(all[all.len() - 1].contains(url));
            }
        }
        if exists|i: int| 0 <= i < all.len() && (#[trigger] all[i]).contains(url) {
            let i = choose|i: int| 0 <= i < all.len() && (#[trigger] all[i]).contains(url);
            if i < before.len() {
                assert(before[i].contains(url));
                assert(url_matches(init, url));
                let j = choose|j: int|
                    0 <= j < init.len() && (#[trigger] compiled_pattern(init[j]) matches Some(
                        language,
                    ) && language.contains(url));
                assert(compiled_pattern(patterns[j]) is Some);
            } else {
                assert(compiled_pattern(patterns[patterns.len() - 1]) is Some);
            }
        }
    }
}

/// The sampler that goes by headers, canary marks, addresses and a share.
#[derive(Debug)]
pub struct DefaultSampler {
    config: SamplerConfig,
    regexes: Vec<Regex>,
}

impl View for DefaultSampler {
    type V = SamplerConfigView;

    closed spec fn view(&self) -> SamplerConfigView {
        self.config@
    }
}

impl DefaultSampler {
    #[verifier::type_invariant]
    closed spec fn inv(self) -> bool {
        languages(self.regexes@) == compiled_all(texts(self.config.url_patterns@))
    }

    pub fn new(config: SamplerConfig) -> (r: DefaultSampler)
        ensures
            r@ == config@,
    {
        let regexes = DefaultSampler::compile_patterns(&config.url_patterns);
        DefaultSampler { config, regexes }
    }

    /// Compiles patterns, and leaves out those that do not compile.
    pub fn compile_patterns(patterns: &Vec<String>) -> (r: Vec<Regex>)
        ensures
            languages(r@) == compiled_all(texts(patterns@)),
    {
        let mut regexes: Vec<Regex> = Vec::new();
        let mut i: usize = 0;
        assert(languages(regexes@) =~= compiled_all(texts(patterns@.take(0))));
        while i < patterns.len()
            invariant
                i <= patterns@.len(),
                languages(regexes@) == compiled_all(texts(patterns@.take(i as int))),
            decreases patterns@.len() - i,
        {
            proof {
                let next = texts(patterns@.take(i + 1));
                assert(next.drop_last() =~= texts(patterns@.take(i as int)));
                assert(next.last() == patterns@[i as int]@);
            }
            let ghost before = regexes@;
            if let Some(re) = compile_pattern(patterns[i].as_str()) {
                regexes.push(re);
                assert(languages(regexes@) =~= languages(before).push(regex_language(re)));
            }
            i = i + 1;
        }
        assert(patterns@.take(patterns@.len() as int) =~= patterns@);
        regexes
    }

    /// A random identifier for a trace.
    pub fn generate_trace_id() -> (r: String)
        ensures
            is_generated_id(r@),
            r@.len() == 32,
    {
        generate_request_id()
    }

    /// Whether a pattern of the configuration matches an address.
    pub fn matches_url(&self, url: &str) -> (r: bool)
        ensures
            r == url_matches(self@.url_patterns, url@),
    {
        proof {
            use_type_invariant(self);
            lemma_url_matches(self@.url_patterns, url@);
        }
        let ghost all = compiled_all(self@.url_patterns);
        let mut i: usize = 0;
        while i < self.regexes.len()
            invariant
                i <= self.regexes@.len(),
                all == languages(self.regexes@),
                url_matches(self@.url_patterns, url@) <==> exists|j: int|
                    0 <= j < all.len() && (#[trigger] all[j]).contains(url@),
                forall|j: int| 0 <= j < i ==> !(#[trigger] all[j]).contains(url@),
            decreases self.regexes@.len() - i,
        {
            assert(all[i as int] == regex_language(self.regexes@[i as int]));
            if pattern_matches(&self.regexes[i], url) {
                return true;
            }
            i = i + 1;
        }
        false
    }

    /// What is decided without regard to the share, if anything: the headers come
    /// first, then the canary mark, then the address.
    pub fn rule(&self, headers: &HeaderMap, url: &str) -> (r: Option<(bool, SamplingReason)>)
        ensures
            r == self@.ruling(header_fields(*headers), url@),
    {
        let decided = self.rule_with(headers, false);
        if decided.is_some() {
            return decided;
        }
        self.rule_with(headers, self.matches_url(url))
    }

    /// What is decided without regard to the share, if anything, where it is known
    /// whether a pattern matched the address.
    pub fn rule_with(&self, headers: &HeaderMap, matched: bool) -> (r: Option<
        (bool, SamplingReason),
    >)
        ensures
            r == self@.ruling_with(header_fields(*headers), matched),
    {
        proof {
            lemma_known_names();
            lemma_trace_names();
            lemma_canary_case();
        }
        if let Some(val) = get_text(headers, SAMPLED_HEADER) {
            let v = val.as_str();
            if str_eq(v, "1") || v.eq_ignore_ascii_case("true") {
                return Some((true, SamplingReason::HeaderForced));
            }
            if str_eq(v, "0") || v.eq_ignore_ascii_case("false") {
                return Some((false, SamplingReason::NotSampled));
            }
        }
        if self.config.force_canary {
            if let Some(val) = get_text(headers, CANARY_HEADER) {
                if val.as_str().eq_ignore_ascii_case("canary") {
                    return Some((true, SamplingReason::CanaryForced));
                }
            }
        }
        if matched {
            return Some((true, SamplingReason::UrlRegex));
        }
        None
    }

    /// Whether a request with that hash is in the share that is traced, when chance
    /// gives that word.
    pub fn is_in_share(&self, hash: u64, word: u64) -> (r: bool)
        ensures
            r == in_share(self@.percentage, hash, word),
    {
        if !self.config.percentage.is_positive() {
            return false;
        }
        let share = self.config.percentage.clamp_unit();
        proof {
            lemma_clamped_is_unit(self.config.percentage);
        }
        if hash < share.to_hash_threshold() {
            return true;
        }
        Binary64::unit_interval(word).lt(share.tenth())
    }

    /// The decision on a request, where chance comes from that generator.
    pub fn should_sample_from(
        &self,
        headers: &HeaderMap,
        url: &str,
        generator: &mut Generator,
    ) -> (r: SamplingDecision)
        ensures
            is_trace_id(header_fields(*headers), r.trace_id@),
            self@.may_decide(
                header_fields(*headers),
                url@,
                text_hash(hashed_text(r.trace_id@, url@)),
                (r.sampled, r.reason),
            ),
            old(generator)@.len() <= final(generator)@.len(),
            final(generator)@.take(old(generator)@.len() as int) == old(generator)@,
            self@.is_decided_by(
                header_fields(*headers),
                url@,
                r.trace_id@,
                (r.sampled, r.reason),
                final(generator)@.skip(old(generator)@.len() as int),
            ),
    {
        proof {
            lemma_trace_names();
        }
        let ghost before = generator@;
        let trace_id = match get_text(headers, TRACE_ID_HEADER) {
            Some(id) => id,
            None => generate_request_id_from(generator),
        };
        let ghost between = generator@;
        assert(between.take(before.len() as int) =~= before);
        let (sampled, reason) = match self.rule(headers, url) {
            Some(r) => r,
            None => {
                let mut hashed = trace_id.clone();
                hashed.append("|");
                hashed.append(url);
                assert(hashed@ =~= hashed_text(trace_id@, url@));
                let hash = hash_url(hashed.as_str());
                let word = generator.word();
                if self.is_in_share(hash, word) {
                    (true, SamplingReason::Percentage)
                } else {
                    (false, SamplingReason::NotSampled)
                }
            },
        };
        assert(generator@.take(before.len() as int) =~= before);
        SamplingDecision { sampled, reason, trace_id }
    }
}

impl TraceSampler for DefaultSampler {
    /// The trace identifier is that of the headers, or else a random one. What is
    /// decided follows from the configuration, the headers, the address, the hash of
    /// identifier and address, and one random word.
    fn should_sample(&self, headers: &HeaderMap, url: &str) -> (r: SamplingDecision)
        ensures
            is_trace_id(header_fields(*headers), r.trace_id@),
            self@.may_decide(
                header_fields(*headers),
                url@,
                text_hash(hashed_text(r.trace_id@, url@)),
                (r.sampled, r.reason),
            ),
            is_one_decision(*self, *headers, url, r),
    {
        let mut generator = Generator::new();
        self.should_sample_from(headers, url, &mut generator)
    }

    /// Takes over a configuration, with its patterns compiled anew.
    fn update_config(&mut self, config: SamplerConfig)
        ensures
            final(self)@ == config@,
    {
        *self = DefaultSampler::new(config);
    }
}

/// The headers with a decision in them.
pub open spec fn with_decision(
    fields: Map<Seq<char>, Seq<Seq<u8>>>,
    sampled: bool,
    trace_id: Seq<char>,
) -> Map<Seq<char>, Seq<Seq<u8>>> {
    with_text(
        with_text(fields, TRACE_ID_HEADER@, trace_id),
        SAMPLED_HEADER@,
        if sampled {
            "1"@
        } else {
            "0"@
        },
    )
}

/// What headers hold that could not take all of a decision: the part that came before
/// what they had no room for.
pub open spec fn is_partly_decided(
    after: Map<Seq<char>, Seq<Seq<u8>>>,
    before: Map<Seq<char>, Seq<Seq<u8>>>,
    trace_id: Seq<char>,
) -> bool {
    was_full(after) && (after == before || after == with_text(before, TRACE_ID_HEADER@, trace_id))
}

/// Puts a decision into the headers, for the next hop.
pub fn inject_sampling_headers(decision: &SamplingDecision, headers: &mut HeaderMap) -> (r: Result<
    (),
    HeadersFull,
>)
    ensures
        has_room_for(*old(headers), 2) ==> r is Ok,
        r is Ok ==> header_fields(*final(headers)) == with_decision(
            header_fields(*old(headers)),
            decision.sampled,
            decision.trace_id@,
        ),
        r is Err ==> is_partly_decided(
            header_fields(*final(headers)),
            header_fields(*old(headers)),
            decision.trace_id@,
        ),
{
    proof {
        lemma_trace_names();
    }
    let ghost before = *headers;
    if set_text(headers, TRACE_ID_HEADER, decision.trace_id.as_str()).is_err() {
        return Err(HeadersFull);
    }
    proof {
        if has_room_for(before, 2) {
            lemma_room(before, *headers, TRACE_ID_HEADER@, 1);
        }
    }
    let sampled_value = if decision.sampled {
        "1"
    } else {
        "0"
    };
    set_text(headers, SAMPLED_HEADER, sampled_value)
}

/// The names of the tracing headers are header names, and differ.
pub proof fn lemma_trace_names()
    ensures
        is_header_name(SAMPLED_HEADER@),
        is_header_name(TRACE_ID_HEADER@),
        !SAMPLED_HEADER@.contains('"'),
        !TRACE_ID_HEADER@.contains('"'),
        SAMPLED_HEADER@ != TRACE_ID_HEADER@,
{
    reveal_strlit("x-trace-sampled");
    reveal_strlit("x-trace-id");
    assert(SAMPLED_HEADER@.len() == 15);
    assert(TRACE_ID_HEADER@.len() == 10);
}

proof fn lemma_canary_case()
    ensures
        ascii_lower("canary"@) == "canary"@,
{
    reveal_strlit("canary");
    assert(ascii_lower("canary"@) =~= "canary"@);
}

/// What the headers demand goes before everything else.
pub proof fn headers_decide_first(
    config: SamplerConfigView,
    fields: Map<Seq<char>, Seq<Seq<u8>>>,
    url: Seq<char>,
    hash: u64,
    word: u64,
)
    requires
        demanded(fields) is Some,
    ensures
        config.verdict(fields, url, hash, word).0 == demanded(fields)->0,
{
}

/// A decision that one hop puts into the headers is the decision of the next hop,
/// whatever its own configuration is, and the trace keeps its identifier.
pub proof fn decision_is_taken_over(
    config: SamplerConfigView,
    fields: Map<Seq<char>, Seq<Seq<u8>>>,
    sampled: bool,
    trace_id: Seq<char>,
    url: Seq<char>,
    hash: u64,
    word: u64,
)
    ensures
        config.verdict(with_decision(fields, sampled, trace_id), url, hash, word).0 == sampled,
        is_visible_text(trace_id) ==> field_text(
            with_decision(fields, sampled, trace_id),
            TRACE_ID_HEADER@,
        ) == Some(trace_id),
{
    lemma_trace_names();
    reveal_strlit("1");
    reveal_strlit("0");
    reveal_strlit("true");
    reveal_strlit("false");
    let f1 = with_text(fields, TRACE_ID_HEADER@, trace_id);
    assert("0"@.len() == 1 && "1"@.len() == 1 && "true"@.len() == 4 && "false"@.len() == 5);
    assert("0"@[0] == '0' && "1"@[0] == '1');
    assert(ascii_lower("0"@).len() == 1);
    assert(ascii_lower("true"@).len() == 4);
    assert(ascii_lower("false"@).len() == 5);
    text_round_trip(f1, SAMPLED_HEADER@, "1"@);
    text_round_trip(f1, SAMPLED_HEADER@, "0"@);
    if is_visible_text(trace_id) {
        text_round_trip(fields, TRACE_ID_HEADER@, trace_id);
    }
}

/// The decision of the first hop sticks: whatever headers it is put into, and whatever
/// the next hop is configured for and asked, the next hop decides the same under the same
/// identifier.
pub proof fn first_decision_sticks(
    first_fields: Map<Seq<char>, Seq<Seq<u8>>>,
    sampled: bool,
    trace_id: Seq<char>,
    fields: Map<Seq<char>, Seq<Seq<u8>>>,
    next: SamplerConfigView,
    url: Seq<char>,
    hash: u64,
    next_decision: (bool, SamplingReason),
    next_id: Seq<char>,
)
    requires
        is_trace_id(first_fields, trace_id),
        next.may_decide(with_decision(fields, sampled, trace_id), url, hash, next_decision),
        is_trace_id(with_decision(fields, sampled, trace_id), next_id),
    ensures
        next_decision.0 == sampled,
        next_id == trace_id,
{
    match field_text(first_fields, TRACE_ID_HEADER@) {
        Some(_) => lemma_shown_is_visible(first_fields[TRACE_ID_HEADER@][0]),
        None => generated_ids_fit_headers(trace_id),
    }
    decision_is_taken_over(next, fields, sampled, trace_id, url, hash, 0);
    assert forall|word: u64| #[trigger] is_drawn_word(word) implies next.verdict(
        with_decision(fields, sampled, trace_id),
        url,
        hash,
        word,
    ).0 == sampled by {
        decision_is_taken_over(next, fields, sampled, trace_id, url, hash, word);
    };
}

/// With a share of zero, of less, or of no number at all, nothing is traced by chance.
pub proof fn no_share_traces_nothing(
    config: SamplerConfigView,
    fields: Map<Seq<char>, Seq<Seq<u8>>>,
    url: Seq<char>,
    hash: u64,
    word: u64,
)
    requires
        config.percentage.is_nan() || config.percentage.value() <= 0,
        config.ruling(fields, url) is None,
    ensures
        config.verdict(fields, url, hash, word) == (false, SamplingReason::NotSampled),
{
}

/// A larger share traces everything that a smaller one does.
pub proof fn larger_share_traces_more(small: Binary64, large: Binary64, hash: u64, word: u64)
    requires
        !large.is_nan(),
        small.value() <= large.value(),
        in_share(small, hash, word),
    ensures
        in_share(large, hash, word),
{
    lemma_thresholds_grow(small, large);
}

/// With a share of one or more every request is traced, but for the single hash that is
/// the largest of all.
pub proof fn full_share_traces_all(percentage: Binary64, hash: u64, word: u64)
    requires
        percentage.is_full(),
        hash < u64::MAX,
    ensures
        in_share(percentage, hash, word),
{
    lemma_full_threshold(percentage);
}

/// With forced tracing of canary traffic switched off the canary mark has no influence: two
/// requests whose headers agree except under it are decided alike, whatever the address,
/// the hash and chance are.
pub proof fn canary_mark_matters_only_when_forced(
    config: SamplerConfigView,
    a: Map<Seq<char>, Seq<Seq<u8>>>,
    b: Map<Seq<char>, Seq<Seq<u8>>>,
    url: Seq<char>,
    hash: u64,
    word: u64,
)
    requires
        !config.force_canary,
        a.remove(CANARY_HEADER@) == b.remove(CANARY_HEADER@),
    ensures
        config.ruling(a, url) == config.ruling(b, url),
        config.verdict(a, url, hash, word) == config.verdict(b, url, hash, word),
{
    lemma_headers_differ();
    assert(a.remove(CANARY_HEADER@).contains_key(SAMPLED_HEADER@) == a.contains_key(SAMPLED_HEADER@));
    assert(b.remove(CANARY_HEADER@).contains_key(SAMPLED_HEADER@) == b.contains_key(SAMPLED_HEADER@));
    assert(a.contains_key(SAMPLED_HEADER@) ==> a.remove(CANARY_HEADER@)[SAMPLED_HEADER@]
        == a[SAMPLED_HEADER@]);
    assert(b.contains_key(SAMPLED_HEADER@) ==> b.remove(CANARY_HEADER@)[SAMPLED_HEADER@]
        == b[SAMPLED_HEADER@]);
}

/// Nothing but the demand and the canary mark counts among the headers.
pub proof fn other_headers_do_not_matter(
    config: SamplerConfigView,
    a: Map<Seq<char>, Seq<Seq<u8>>>,
    b: Map<Seq<char>, Seq<Seq<u8>>>,
    url: Seq<char>,
    hash: u64,
    word: u64,
)
    requires
        field_text(a, SAMPLED_HEADER@) == field_text(b, SAMPLED_HEADER@),
        field_text(a, CANARY_HEADER@) == field_text(b, CANARY_HEADER@),
    ensures
        config.verdict(a, url, hash, word) == config.verdict(b, url, hash, word),
{
}

/// Every reason is given only where it holds, and a request is traced exactly when there is
/// a reason for it.
pub proof fn reasons_hold(
    config: SamplerConfigView,
    fields: Map<Seq<char>, Seq<Seq<u8>>>,
    url: Seq<char>,
    hash: u64,
    word: u64,
)
    ensures
        ({
            let (sampled, reason) = config.verdict(fields, url, hash, word);
            &&& sampled <==> reason != SamplingReason::NotSampled
            &&& reason == SamplingReason::HeaderForced <==> demanded(fields) == Some(true)
            &&& reason == SamplingReason::CanaryForced <==> demanded(fields) is None
                && config.force_canary && marks_canary(fields)
            &&& reason == SamplingReason::UrlRegex <==> demanded(fields) is None && !(
            config.force_canary && marks_canary(fields)) && url_matches(config.url_patterns, url)
            &&& reason == SamplingReason::Percentage ==> in_share(config.percentage, hash, word)
            &&& reason == SamplingReason::NotSampled && demanded(fields) is None ==> !in_share(
                config.percentage,
                hash,
                word,
            )
        }),
{
}

/// There is no ruling exactly where the headers demand nothing, no canary traffic is forced,
/// and no pattern matches; then the share alone decides.
pub proof fn share_decides_where_nothing_else_does(
    config: SamplerConfigView,
    fields: Map<Seq<char>, Seq<Seq<u8>>>,
    url: Seq<char>,
    hash: u64,
    word: u64,
)
    ensures
        config.ruling(fields, url) is None <==> {
            &&& demanded(fields) is None
            &&& !(config.force_canary && marks_canary(fields))
            &&& !url_matches(config.url_patterns, url)
        },
        config.ruling(fields, url) is None ==> (config.verdict(fields, url, hash, word).0
            <==> in_share(config.percentage, hash, word)),
{
}

/// The headers demand a trace exactly by a one or the word "true", and forbid it exactly by
/// a zero or the word "false", the words in letters of any case.
pub proof fn demands_are_spelled_out(fields: Map<Seq<char>, Seq<Seq<u8>>>)
    ensures
        demanded(fields) == Some(true) <==> (field_text(fields, SAMPLED_HEADER@) matches Some(t) && (
        t == seq!['1'] || is_spelled(t, seq!['t', 'r', 'u', 'e'], seq!['T', 'R', 'U', 'E']))),
        demanded(fields) == Some(false) <==> (field_text(fields, SAMPLED_HEADER@) matches Some(t)
            && (t == seq!['0'] || is_spelled(
            t,
            seq!['f', 'a', 'l', 's', 'e'],
            seq!['F', 'A', 'L', 'S', 'E'],
        ))),
{
    reveal_strlit("1");
    reveal_strlit("0");
    reveal_strlit("true");
    reveal_strlit("false");
    assert("1"@ =~= seq!['1']);
    assert("0"@ =~= seq!['0']);
    assert("true"@ =~= seq!['t', 'r', 'u', 'e']);
    assert("false"@ =~= seq!['f', 'a', 'l', 's', 'e']);
    if let Some(t) = field_text(fields, SAMPLED_HEADER@) {
        lemma_spelled(t, seq!['t', 'r', 'u', 'e'], seq!['T', 'R', 'U', 'E']);
        lemma_spelled(t, seq!['f', 'a', 'l', 's', 'e'], seq!['F', 'A', 'L', 'S', 'E']);
        assert(ascii_lower("true"@) =~= "true"@);
        assert(ascii_lower("false"@) =~= "false"@);
        assert(seq!['0'][0] != seq!['1'][0]);
        if t == seq!['1'] || t == seq!['0'] {
            assert(ascii_lower(t).len() == 1);
        }
        if ascii_lower(t) == "true"@ {
            assert(t.len() == 4);
        }
        if ascii_lower(t) == "false"@ {
            assert(t.len() == 5);
        }
    }
}

/// A pattern more never loses a match, and an address matches a list exactly when it matches
/// one of its parts. A list without patterns matches nothing.
pub proof fn patterns_match_one_by_one(
    a: Seq<Seq<char>>,
    b: Seq<Seq<char>>,
    pattern: Seq<char>,
    url: Seq<char>,
)
    ensures
        url_matches(a + b, url) <==> url_matches(a, url) || url_matches(b, url),
        !url_matches(Seq::empty(), url),
        url_matches(seq![pattern], url) <==> (compiled_pattern(pattern) matches Some(language)
            && language.contains(url)),
{
    let all = a + b;
    if url_matches(a, url) {
        let i = choose|i: int|
            0 <= i < a.len() && (#[trigger] compiled_pattern(a[i]) matches Some(l) && l.contains(url));
        assert(all[i] == a[i]);
        assert(compiled_pattern(all[i]) is Some);
    }
    if url_matches(b, url) {
        let i = choose|i: int|
            0 <= i < b.len() && (#[trigger] compiled_pattern(b[i]) matches Some(l) && l.contains(url));
        assert(all[a.len() + i] == b[i]);
        assert(compiled_pattern(all[a.len() + i]) is Some);
    }
    if url_matches(all, url) {
        let i = choose|i: int|
            0 <= i < all.len() && (#[trigger] compiled_pattern(all[i]) matches Some(l) && l.contains(
                url,
            ));
        if i < a.len() {
            assert(all[i] == a[i]);
            assert(compiled_pattern(a[i]) is Some);
        } else {
            assert(all[i] == b[i - a.len()]);
            assert(compiled_pattern(b[i - a.len()]) is Some);
        }
    }
    let one = seq![pattern];
    assert(one[0] == pattern);
    if compiled_pattern(pattern) is Some {
        assert(compiled_pattern(one[0]) is Some);
    }
}

/// The canary mark and the demand stand under different names.
proof fn lemma_headers_differ()
    ensures
        CANARY_HEADER@ != SAMPLED_HEADER@,
{
    reveal_strlit("x-envoy");
    reveal_strlit("x-trace-sampled");
    assert(CANARY_HEADER@.len() == 7);
    assert(SAMPLED_HEADER@.len() == 15);
}

/// A request is decided by its own draws: at most one word goes into a decision, none where
/// there is a ruling, and without one the request is traced exactly when it lies in the
/// share by that word. An identifier from the headers draws nothing.
pub proof fn requests_are_decided_by_their_own_word(
    config: SamplerConfigView,
    fields: Map<Seq<char>, Seq<Seq<u8>>>,
    url: Seq<char>,
    trace_id: Seq<char>,
    decision: (bool, SamplingReason),
    drawn: Seq<Draw>,
)
    requires
        config.is_decided_by(fields, url, trace_id, decision, drawn),
    ensures
        config.ruling(fields, url) is Some ==> forall|i: int|
            0 <= i < drawn.len() ==> !(#[trigger] drawn[i] is Word),
        config.ruling(fields, url) is None ==> drawn.len() > 0 && (drawn.last() matches Draw::Word(
            word,
        ) && (decision.0 <==> in_share(
            config.percentage,
            text_hash(hashed_text(trace_id, url)),
            word,
        ))) && forall|i: int| 0 <= i < drawn.len() - 1 ==> !(#[trigger] drawn[i] is Word),
        fields.contains_key(TRACE_ID_HEADER@) && all_visible_bytes(fields[TRACE_ID_HEADER@][0])
            ==> drawn.len() <= 1 && forall|i: int|
            0 <= i < drawn.len() ==> #[trigger] drawn[i] is Word,
{
}

/// The share is traced by the hash alone, and chance adds about a tenth of it: a request
/// whose hash lies in the share is traced whatever the word, one that does not is traced
/// where the random number is below a sixteenth of the share, and is not where that number
/// is an eighth of it or more.
pub proof fn share_is_traced_by_hash_and_a_tenth_by_chance(
    percentage: Binary64,
    hash: u64,
    word: u64,
)
    requires
        !percentage.is_nan(),
        percentage.value() > 0,
        percentage.unit_clamped().bits >= 5 * HIDDEN,
        hash < u64::MAX,
    ensures
        ({
            let share = units(percentage.unit_clamped().mag());
            let by_hash = (hash + 1) as nat * pow2(1074) <= share * pow2(64);
            &&& by_hash ==> in_share(percentage, hash, word)
            &&& 16 * unit_units(word) < share ==> in_share(percentage, hash, word)
            &&& !by_hash && 8 * unit_units(word) >= share ==> !in_share(percentage, hash, word)
        }),
{
    let share = percentage.unit_clamped();
    lemma_clamped_is_unit(percentage);
    hashes_below_threshold_are_the_share(share, hash);
    tenth_lies_between_sixteenth_and_eighth(share.mag());
}

/// What is hashed begins with the identifier and ends with the address, with a bar between
/// them; so requests that differ in one of the two are hashed from different texts.
pub proof fn hashed_texts_tell_requests_apart(
    id: Seq<char>,
    other_id: Seq<char>,
    url: Seq<char>,
    other_url: Seq<char>,
)
    ensures
        hashed_text(id, url).len() == id.len() + 1 + url.len(),
        hashed_text(id, url).take(id.len() as int) == id,
        hashed_text(id, url)[id.len() as int] == '|',
        hashed_text(id, url).skip(id.len() as int + 1) == url,
        hashed_text(id, url) == hashed_text(id, other_url) ==> url == other_url,
        hashed_text(id, url) == hashed_text(other_id, url) ==> id == other_id,
{
    reveal_strlit("|");
    let a = hashed_text(id, url);
    assert(a.take(id.len() as int) =~= id);
    assert(a.skip(id.len() as int + 1) =~= url);
    let b = hashed_text(id, other_url);
    assert(b.skip(id.len() as int + 1) =~= other_url);
    let c = hashed_text(other_id, url);
    assert(c.take(other_id.len() as int) =~= other_id);
    if a == c {
        assert(a.len() == c.len());
    }
}

} // verus!
