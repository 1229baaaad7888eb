//! Checking and normalising conversion options.

use vstd::prelude::*;
use vstd::utf8::{encode_scalar, encode_utf8};
use crate::chars::{lower_seq, spec_to_lower};
use crate::tags::{find_tag, get_tag_id_ci_bytes, tag_id_of, tag_name_spec, MAX_TAG_ID, TAG_A, TAG_BLOCKQUOTE, TAG_CODE, TAG_PRE};
use crate::types::{
    ConfigurationError, ConversionMode, HTMLToMarkdownOptions, PluginConfig, TagOverrideConfig,
    UnsupportedStreamingOption,
};

verus! {

/// ASCII-lowercase mapping of one character.
pub open spec fn lower_char(c: char) -> char {
    if 'A' <= c <= 'Z' {
        ((c as u32) + 32) as char
    } else {
        c
    }
}

pub open spec fn lower_chars(s: Seq<char>) -> Seq<char> {
    s.map_values(|c: char| lower_char(c))
}

/// Lowercases the ASCII letters of a string. Calls `str::make_ascii_lowercase`,
/// which maps `A`–`Z` to `a`–`z` and leaves every other character as it is.
#[verifier::external_body]
pub(crate) fn make_ascii_lowercase(s: &mut String)
    ensures
        final(s)@ == lower_chars(old(s)@),
{
    s.make_ascii_lowercase()
}

/// Tags whose override must give both `enter` and `exit`, since their
/// default rendering opens and closes a Markdown construct.
pub open spec fn requires_pair_spec(tag: Seq<char>) -> bool {
    match tag_id_of(lower_seq(encode_utf8(tag))) {
        Some(id) => id == TAG_A || id == TAG_BLOCKQUOTE || id == TAG_CODE || id == TAG_PRE,
        None => false,
    }
}

/// The element names `a`, `blockquote`, `code` and `pre` (lower case).
pub open spec fn paired_override_name(n: Seq<u8>) -> bool {
    ||| n == seq![97u8]
    ||| n == seq![98u8, 108u8, 111u8, 99u8, 107u8, 113u8, 117u8, 111u8, 116u8, 101u8]
    ||| n == seq![99u8, 111u8, 100u8, 101u8]
    ||| n == seq![112u8, 114u8, 101u8]
}

/// The id the element table gives one of those names.
pub open spec fn paired_override_id(n: Seq<u8>) -> u8 {
    if n == seq![97u8] { 0 } else if n == seq![98u8, 108u8, 111u8, 99u8, 107u8, 113u8, 117u8, 111u8, 116u8, 101u8] { 12 }
    else if n == seq![99u8, 111u8, 100u8, 101u8] { 20 } else { 85 }
}

/// What the element table finds for a name is an element of that name.
pub proof fn lemma_find_tag_sound(n: Seq<u8>, k: int)
    ensures
        find_tag(n, k) matches Some(id) ==> tag_name_spec(id) == n && k <= id < MAX_TAG_ID,
    decreases MAX_TAG_ID - k,
{
    if 0 <= k < MAX_TAG_ID && tag_name_spec(k as u8) != n {
        lemma_find_tag_sound(n, k + 1);
    }
}

/// The element table finds the first element of a name.
pub proof fn lemma_find_tag_finds(n: Seq<u8>, k: int, t: int)
    requires
        0 <= k <= t < MAX_TAG_ID,
        tag_name_spec(t as u8) == n,
        forall|j: int| k <= j < t ==> #[trigger] tag_name_spec(j as u8) != n,
    ensures
        find_tag(n, k) == Some(t as u8),
    decreases t - k,
{
    if k < t {
        lemma_find_tag_finds(n, k + 1, t);
    }
}

/// Only one element carries each of the names `a`, `blockquote`, `code`, `pre`.
pub proof fn lemma_paired_name_unique(j: u8, n: Seq<u8>)
    requires
        paired_override_name(n),
        tag_name_spec(j) == n,
    ensures
        j == paired_override_id(n),
{
    let name = tag_name_spec(j);
    if n == seq![97u8] {
        assert(name.len() == 1 && name[0] == 97u8);
    } else if n == seq![98u8, 108u8, 111u8, 99u8, 107u8, 113u8, 117u8, 111u8, 116u8, 101u8] {
        assert(name.len() == 10 && name[0] == 98u8 && name[1] == 108u8 && name[2] == 111u8);
    } else if n == seq![99u8, 111u8, 100u8, 101u8] {
        assert(name.len() == 4 && name[0] == 99u8 && name[1] == 111u8 && name[2] == 100u8 && name[3] == 101u8);
    } else {
        assert(name.len() == 3 && name[0] == 112u8 && name[1] == 114u8 && name[2] == 101u8);
    }
}

/// The tags whose overrides must give both `enter` and `exit` are exactly
/// `a`, `blockquote`, `code` and `pre`, in any letter case.
pub proof fn lemma_paired_override_tags(tag: Seq<char>)
    ensures
        requires_pair_spec(tag) <==> paired_override_name(lower_seq(encode_utf8(tag))),
{
    let n = lower_seq(encode_utf8(tag));
    lemma_find_tag_sound(n, 0);
    if paired_override_name(n) {
        let t = paired_override_id(n);
        assert(tag_name_spec(t) == n);
        assert forall|j: int| 0 <= j < t implies #[trigger] tag_name_spec(j as u8) != n by {
            if tag_name_spec(j as u8) == n {
                lemma_paired_name_unique(j as u8, n);
            }
        }
        lemma_find_tag_finds(n, 0, t as int);
    }
}

/// An override of `a`, `blockquote`, `code` or `pre` (any letter case)
/// without an alias that gives exactly one of `enter` and `exit` is refused
/// as unpaired.
pub proof fn lemma_unpaired_override_refused(tag: String, c: TagOverrideConfig)
    requires
        paired_override_name(lower_seq(encode_utf8(tag@))),
        c.alias_tag_id is None,
        (c.enter is Some) != (c.exit is Some),
    ensures
        override_error(tag, c) == Some(ConfigurationError::UnpairedTagOverride { tag }),
{
    lemma_paired_override_tags(tag@);
}

/// Options whose overrides before position `i` are sound and whose
/// override at `i` is such an unpaired one are refused by
/// `validate_options` with `UnpairedTagOverride` naming that tag.
pub proof fn lemma_unpaired_override_fails_validation(o: HTMLToMarkdownOptions, i: int)
    requires
        o.plugins matches Some(p) && p.tag_overrides matches Some(v) && 0 <= i < v@.len()
            && (forall|j: int| 0 <= j < i ==> override_error(#[trigger] v@[j].0, v@[j].1) is None)
            && paired_override_name(lower_seq(encode_utf8(v@[i].0@)))
            && v@[i].1.alias_tag_id is None
            && (v@[i].1.enter is Some) != (v@[i].1.exit is Some),
    ensures
        options_error(o, ConversionMode::OneShot)
            == Some(ConfigurationError::UnpairedTagOverride { tag: o.plugins.unwrap().tag_overrides.unwrap()@[i].0 }),
{
    let v = o.plugins.unwrap().tag_overrides.unwrap()@;
    lemma_unpaired_override_refused(v[i].0, v[i].1);
    lemma_first_override_error_at(v, 0, i);
}

/// The first override error is the one at the first faulty position.
pub proof fn lemma_first_override_error_at(v: Seq<(String, TagOverrideConfig)>, k: int, i: int)
    requires
        0 <= k <= i < v.len(),
        forall|j: int| k <= j < i ==> override_error(#[trigger] v[j].0, v[j].1) is None,
        override_error(v[i].0, v[i].1) is Some,
    ensures
        first_override_error(v, k) == override_error(v[i].0, v[i].1),
    decreases i - k,
{
    if k < i {
        lemma_first_override_error_at(v, k + 1, i);
    }
}

pub fn tag_override_requires_pair(tag: &String) -> (r: bool)
    ensures
        r == requires_pair_spec(tag@),
        r == paired_override_name(lower_seq(encode_utf8(tag@))),
{
    proof { lemma_paired_override_tags(tag@); }
    match get_tag_id_ci_bytes(tag.as_str().as_bytes()) {
        Some(id) => id == TAG_A || id == TAG_BLOCKQUOTE || id == TAG_CODE || id == TAG_PRE,
        None => false,
    }
}

/// Whether an override sets any rendering field besides an alias.
pub open spec fn has_fields(c: TagOverrideConfig) -> bool {
    c.enter is Some || c.exit is Some || c.spacing is Some || c.is_inline is Some || c.is_self_closing is Some
        || c.collapses_inner_white_space is Some
}

/// What is wrong with one tag override, if anything.
pub open spec fn override_error(tag: String, c: TagOverrideConfig) -> Option<ConfigurationError> {
    if c.alias_tag_id is Some && c.alias_tag_id.unwrap() >= MAX_TAG_ID {
        Some(ConfigurationError::TagAliasOutOfRange { tag, alias_tag_id: c.alias_tag_id.unwrap() })
    } else if c.alias_tag_id is Some && has_fields(c) {
        Some(ConfigurationError::TagAliasWithOverrides { tag })
    } else if requires_pair_spec(tag@) && (c.enter is Some) != (c.exit is Some) {
        Some(ConfigurationError::UnpairedTagOverride { tag })
    } else {
        None
    }
}

/// The first override error from position `i` on.
pub open spec fn first_override_error(ovs: Seq<(String, TagOverrideConfig)>, i: int) -> Option<ConfigurationError>
    decreases ovs.len() - i,
{
    if i < 0 || i >= ovs.len() {
        None
    } else if override_error(ovs[i].0, ovs[i].1) is Some {
        override_error(ovs[i].0, ovs[i].1)
    } else {
        first_override_error(ovs, i + 1)
    }
}

/// The option a strict stream cannot honour, if any: fragment cleaning,
/// then main isolation, frontmatter and extraction, in that order.
pub open spec fn streaming_conflict(o: HTMLToMarkdownOptions) -> Option<UnsupportedStreamingOption> {
    if o.clean matches Some(c) && c.fragments {
        Some(UnsupportedStreamingOption::CleanFragments)
    } else if o.plugins matches Some(p) && p.isolate_main is Some {
        Some(UnsupportedStreamingOption::IsolateMain)
    } else if o.plugins matches Some(p) && p.frontmatter is Some {
        Some(UnsupportedStreamingOption::Frontmatter)
    } else if o.plugins matches Some(p) && p.extraction is Some {
        Some(UnsupportedStreamingOption::Extraction)
    } else {
        None
    }
}

/// The error validation reports for `o` in `mode`, if any.
pub open spec fn options_error(o: HTMLToMarkdownOptions, mode: ConversionMode) -> Option<ConfigurationError> {
    if mode == ConversionMode::Streaming && streaming_conflict(o) is Some {
        Some(ConfigurationError::UnsupportedStreamingOption(streaming_conflict(o).unwrap()))
    } else if o.plugins is Some && o.plugins.unwrap().tag_overrides is Some {
        first_override_error(o.plugins.unwrap().tag_overrides.unwrap()@, 0)
    } else {
        None
    }
}

fn check_override(tag: &String, c: &TagOverrideConfig) -> (r: Option<ConfigurationError>)
    ensures
        r == override_error(*tag, *c),
{
    match c.alias_tag_id {
        Some(alias) => {
            if alias as usize >= MAX_TAG_ID {
                return Some(ConfigurationError::TagAliasOutOfRange { tag: tag.clone(), alias_tag_id: alias });
            }
            if c.enter.is_some() || c.exit.is_some() || c.spacing.is_some() || c.is_inline.is_some()
                || c.is_self_closing.is_some() || c.collapses_inner_white_space.is_some() {
                return Some(ConfigurationError::TagAliasWithOverrides { tag: tag.clone() });
            }
        },
        None => {},
    }
    if tag_override_requires_pair(tag) && c.enter.is_some() != c.exit.is_some() {
        return Some(ConfigurationError::UnpairedTagOverride { tag: tag.clone() });
    }
    None
}

/// Validates converter options for one-shot or strict streaming use.
pub fn validate_options(options: &HTMLToMarkdownOptions, mode: ConversionMode) -> (r: Result<(), ConfigurationError>)
    ensures
        match options_error(*options, mode) {
            Some(e) => r == Err::<(), ConfigurationError>(e),
            None => r is Ok,
        },
{
    if mode == ConversionMode::Streaming {
        match &options.clean {
            Some(clean) => {
                if clean.fragments {
                    return Err(ConfigurationError::UnsupportedStreamingOption(UnsupportedStreamingOption::CleanFragments));
                }
            },
            None => {},
        }
        match &options.plugins {
            Some(plugins) => {
                if plugins.isolate_main.is_some() {
                    return Err(ConfigurationError::UnsupportedStreamingOption(UnsupportedStreamingOption::IsolateMain));
                }
                if plugins.frontmatter.is_some() {
                    return Err(ConfigurationError::UnsupportedStreamingOption(UnsupportedStreamingOption::Frontmatter));
                }
                if plugins.extraction.is_some() {
                    return Err(ConfigurationError::UnsupportedStreamingOption(UnsupportedStreamingOption::Extraction));
                }
            },
            None => {},
        }
    }
    let overrides = match &options.plugins {
        Some(plugins) => match &plugins.tag_overrides {
            Some(o) => o,
            None => return Ok(()),
        },
        None => return Ok(()),
    };
    let mut i: usize = 0;
    while i < overrides.len()
        invariant
            i <= overrides@.len(),
            mode == ConversionMode::Streaming ==> streaming_conflict(*options) is None,
            options.plugins is Some,
            options.plugins.unwrap().tag_overrides == Some(*overrides),
            first_override_error(overrides@, 0) == first_override_error(overrides@, i as int),
        decreases overrides@.len() - i,
    {
        match check_override(&overrides[i].0, &overrides[i].1) {
            Some(e) => return Err(e),
            None => {},
        }
        i = i + 1;
    }
    Ok(())
}

/// Whether a tolerant stream must hold all output back until it finishes.
pub open spec fn defers_output(o: HTMLToMarkdownOptions) -> bool {
    (o.clean matches Some(c) && c.fragments) || (o.plugins matches Some(p) && p.isolate_main is Some)
}

pub fn requires_deferred_streaming(options: &HTMLToMarkdownOptions) -> (r: bool)
    ensures
        r == defers_output(*options),
{
    let fragments = match &options.clean {
        Some(c) => c.fragments,
        None => false,
    };
    let isolate = match &options.plugins {
        Some(p) => p.isolate_main.is_some(),
        None => false,
    };
    fragments || isolate
}

/// The overrides with every tag name ASCII-lowercased, order and configs kept.
pub open spec fn lower_overrides(ovs: Seq<(String, TagOverrideConfig)>, out: Seq<(String, TagOverrideConfig)>) -> bool {
    &&& out.len() == ovs.len()
    &&& forall|i: int| 0 <= i < ovs.len() ==> (#[trigger] out[i]).0@ == lower_chars(ovs[i].0@) && out[i].1 == ovs[i].1
}

/// `n` is `o` with its override tag names lowercased and nothing else changed.
pub open spec fn is_normalized_of(n: HTMLToMarkdownOptions, o: HTMLToMarkdownOptions) -> bool {
    &&& n.origin == o.origin
    &&& n.url_policy == o.url_policy
    &&& n.clean_urls == o.clean_urls
    &&& n.clean == o.clean
    &&& n.wrap_width == o.wrap_width
    &&& (n.plugins is Some <==> o.plugins is Some)
    &&& (o.plugins matches Some(op) ==> {
        let np = n.plugins.unwrap();
        &&& np.filter == op.filter
        &&& np.isolate_main == op.isolate_main
        &&& np.frontmatter == op.frontmatter
        &&& np.tailwind == op.tailwind
        &&& np.extraction == op.extraction
        &&& (np.tag_overrides is Some <==> op.tag_overrides is Some)
        &&& (op.tag_overrides matches Some(ov) ==> lower_overrides(ov@, np.tag_overrides.unwrap()@))
    })
}

fn lowercase_overrides(ovs: Vec<(String, TagOverrideConfig)>) -> (r: Vec<(String, TagOverrideConfig)>)
    ensures
        lower_overrides(ovs@, r@),
{
    let mut rest = ovs;
    let mut out: Vec<(String, TagOverrideConfig)> = Vec::new();
    let ghost orig = ovs@;
    while rest.len() > 0
        invariant
            out@.len() + rest@.len() == orig.len(),
            rest@ == orig.subrange(out@.len() as int, orig.len() as int),
            forall|i: int| 0 <= i < out@.len() ==> (#[trigger] out@[i]).0@ == lower_chars(orig[i].0@) && out@[i].1 == orig[i].1,
        decreases rest@.len(),
    {
        let (tag, config) = rest.remove(0);
        let mut tag = tag;
        make_ascii_lowercase(&mut tag);
        out.push((tag, config));
        assert(rest@ =~= orig.subrange(out@.len() as int, orig.len() as int));
    }
    out
}

/// Lowercases the tag names of all overrides.
pub fn normalize_options(options: HTMLToMarkdownOptions) -> (r: HTMLToMarkdownOptions)
    ensures
        is_normalized_of(r, options),
{
    let mut o = options;
    match o.plugins {
        Some(mut plugins) => {
            match plugins.tag_overrides {
                Some(ovs) => {
                    plugins.tag_overrides = Some(lowercase_overrides(ovs));
                },
                None => {},
            }
            o.plugins = Some(plugins);
        },
        None => {},
    }
    o
}

/// Whether an alias in `c` is dropped by the tolerant entry points: it is out
/// of range or combined with rendering fields.
pub open spec fn drops_alias(c: TagOverrideConfig) -> bool {
    c.alias_tag_id is Some && (c.alias_tag_id.unwrap() >= MAX_TAG_ID || has_fields(c))
}

/// Whether the tolerant entry points complete a half-given `enter`/`exit` pair.
pub open spec fn completes_pair(tag: Seq<char>, c: TagOverrideConfig) -> bool {
    requires_pair_spec(tag) && (c.enter is Some) != (c.exit is Some)
}

/// `r` is the override `c` as the tolerant entry points use it: an alias that
/// is out of range or combined with rendering fields is dropped, and a
/// pair-requiring tag with only one of `enter`/`exit` gets an empty string for
/// the other. Nothing else changes.
pub open spec fn is_safe_override(tag: Seq<char>, c: TagOverrideConfig, r: TagOverrideConfig) -> bool {
    &&& r.alias_tag_id == (if drops_alias(c) { None } else { c.alias_tag_id })
    &&& r.spacing == c.spacing
    &&& r.is_inline == c.is_inline
    &&& r.is_self_closing == c.is_self_closing
    &&& r.collapses_inner_white_space == c.collapses_inner_white_space
    &&& if completes_pair(tag, c) {
        &&& r.enter is Some && r.exit is Some
        &&& (c.enter is Some ==> r.enter == c.enter)
        &&& (c.enter is None ==> r.enter.unwrap()@ == Seq::<char>::empty())
        &&& (c.exit is Some ==> r.exit == c.exit)
        &&& (c.exit is None ==> r.exit.unwrap()@ == Seq::<char>::empty())
    } else {
        r.enter == c.enter && r.exit == c.exit
    }
}

pub proof fn lemma_safe_override_valid(tag: String, c: TagOverrideConfig, r: TagOverrideConfig)
    requires
        is_safe_override(tag@, c, r),
    ensures
        override_error(tag, r) is None,
{
}

pub proof fn lemma_no_override_errors(ovs: Seq<(String, TagOverrideConfig)>, i: int)
    requires
        forall|k: int| 0 <= k < ovs.len() ==> override_error(#[trigger] ovs[k].0, ovs[k].1) is None,
    ensures
        first_override_error(ovs, i) is None,
    decreases ovs.len() - i,
{
    if 0 <= i < ovs.len() {
        lemma_no_override_errors(ovs, i + 1);
    }
}

fn make_safe(tag: &String, c: TagOverrideConfig) -> (r: TagOverrideConfig)
    ensures
        is_safe_override(tag@, c, r),
{
    let ghost orig = c;
    let mut c = c;
    match c.alias_tag_id {
        Some(alias) => {
            if alias as usize >= MAX_TAG_ID || c.enter.is_some() || c.exit.is_some() || c.spacing.is_some()
                || c.is_inline.is_some() || c.is_self_closing.is_some()
                || c.collapses_inner_white_space.is_some() {
                c.alias_tag_id = None;
            }
        },
        None => {},
    }
    if tag_override_requires_pair(tag) && c.enter.is_some() != c.exit.is_some() {
        if c.enter.is_none() {
            c.enter = Some(String::new());
        }
        if c.exit.is_none() {
            c.exit = Some(String::new());
        }
    }
    c
}

fn make_overrides_safe(ovs: Vec<(String, TagOverrideConfig)>) -> (r: Vec<(String, TagOverrideConfig)>)
    ensures
        r@.len() == ovs@.len(),
        forall|i: int| 0 <= i < ovs@.len() ==> (#[trigger] r@[i]).0 == ovs@[i].0 && is_safe_override(ovs@[i].0@, ovs@[i].1, r@[i].1),
{
    let mut rest = ovs;
    let mut out: Vec<(String, TagOverrideConfig)> = Vec::new();
    let ghost orig = ovs@;
    while rest.len() > 0
        invariant
            out@.len() + rest@.len() == orig.len(),
            rest@ == orig.subrange(out@.len() as int, orig.len() as int),
            forall|i: int| 0 <= i < out@.len() ==> (#[trigger] out@[i]).0 == orig[i].0 && is_safe_override(orig[i].0@, orig[i].1, out@[i].1),
        decreases rest@.len(),
    {
        let (tag, config) = rest.remove(0);
        let config = make_safe(&tag, config);
        out.push((tag, config));
        assert(rest@ =~= orig.subrange(out@.len() as int, orig.len() as int));
    }
    out
}

proof fn lemma_lower_encode_scalar(c: char)
    ensures
        lower_seq(encode_scalar(lower_char(c) as u32)) == lower_seq(encode_scalar(c as u32)),
{
    if 'A' <= c <= 'Z' {
        let u = c as u32;
        let l = lower_char(c) as u32;
        assert(l == u + 32);
        assert((u & 0x7F) as u8 == u as u8) by (bit_vector)
            requires
                u <= 0x7F;
        assert((l & 0x7F) as u8 == l as u8) by (bit_vector)
            requires
                l <= 0x7F;
        assert(encode_scalar(u) =~= seq![u as u8]);
        assert(encode_scalar(l) =~= seq![l as u8]);
        assert(spec_to_lower(u as u8) == l as u8);
        assert(spec_to_lower(l as u8) == l as u8);
        assert(lower_seq(seq![u as u8]) =~= seq![l as u8]);
        assert(lower_seq(seq![l as u8]) =~= seq![l as u8]);
    }
}

/// Lowercasing the characters of a name does not change the lowercased bytes
/// it is looked up by.
pub proof fn lemma_lower_encode(s: Seq<char>)
    ensures
        lower_seq(encode_utf8(lower_chars(s))) == lower_seq(encode_utf8(s)),
    decreases s.len(),
{
    if s.len() > 0 {
        lemma_lower_encode(s.drop_first());
        assert(lower_chars(s).drop_first() =~= lower_chars(s.drop_first()));
        lemma_lower_encode_scalar(s[0]);
        let a = encode_scalar(lower_char(s[0]) as u32);
        let b = encode_utf8(lower_chars(s.drop_first()));
        let a2 = encode_scalar(s[0] as u32);
        let b2 = encode_utf8(s.drop_first());
        assert(lower_seq(a + b) =~= lower_seq(a) + lower_seq(b));
        assert(lower_seq(a2 + b2) =~= lower_seq(a2) + lower_seq(b2));
    }
}

proof fn lemma_no_first_error(ovs: Seq<(String, TagOverrideConfig)>, i: int)
    requires
        0 <= i,
        first_override_error(ovs, i) is None,
    ensures
        forall|k: int| i <= k < ovs.len() ==> override_error(#[trigger] ovs[k].0, ovs[k].1) is None,
    decreases ovs.len() - i,
{
    if i < ovs.len() {
        lemma_no_first_error(ovs, i + 1);
    }
}

/// Normalises the options and repairs every override that validation would
/// refuse, so the tolerant entry points never fail: the result passes
/// one-shot validation, and options that already pass it only come out
/// normalised.
pub fn safe_options(options: HTMLToMarkdownOptions) -> (r: HTMLToMarkdownOptions)
    ensures
        options_error(r, ConversionMode::OneShot) is None,
        options_error(options, ConversionMode::OneShot) is None ==> is_normalized_of(r, options),
        r.origin == options.origin,
        r.url_policy == options.url_policy,
        r.clean_urls == options.clean_urls,
        r.clean == options.clean,
        r.wrap_width == options.wrap_width,
        (r.plugins is Some <==> options.plugins is Some),
        options.plugins matches Some(op) ==> {
            let rp = r.plugins.unwrap();
            &&& rp.filter == op.filter
            &&& rp.isolate_main == op.isolate_main
            &&& rp.frontmatter == op.frontmatter
            &&& rp.tailwind == op.tailwind
            &&& rp.extraction == op.extraction
            &&& (rp.tag_overrides is Some <==> op.tag_overrides is Some)
            &&& (op.tag_overrides matches Some(ov) ==> {
                let rv = rp.tag_overrides.unwrap()@;
                &&& rv.len() == ov@.len()
                &&& forall|i: int| 0 <= i < rv.len() ==> (#[trigger] rv[i]).0@ == lower_chars(ov@[i].0@)
                    && is_safe_override(rv[i].0@, ov@[i].1, rv[i].1)
            })
        },
{
    let mut o = normalize_options(options);
    match o.plugins {
        Some(mut plugins) => {
            match plugins.tag_overrides {
                Some(ovs) => {
                    let ghost lowered = ovs@;
                    let safe = make_overrides_safe(ovs);
                    proof {
                        assert forall|k: int| 0 <= k < safe@.len() implies override_error(#[trigger] safe@[k].0, safe@[k].1) is None by {
                            lemma_safe_override_valid(safe@[k].0, lowered[k].1, safe@[k].1);
                        }
                        lemma_no_override_errors(safe@, 0);
                    }
                    plugins.tag_overrides = Some(safe);
                },
                None => {},
            }
            o.plugins = Some(plugins);
        },
        None => {},
    }
    proof {
        if options_error(options, ConversionMode::OneShot) is None {
            if options.plugins is Some && options.plugins.unwrap().tag_overrides is Some {
                let ov = options.plugins.unwrap().tag_overrides.unwrap()@;
                let rv = o.plugins.unwrap().tag_overrides.unwrap()@;
                lemma_no_first_error(ov, 0);
                assert forall|i: int| 0 <= i < ov.len() implies (#[trigger] rv[i]).0@ == lower_chars(ov[i].0@)
                    && rv[i].1 == ov[i].1 by {
                    lemma_lower_encode(ov[i].0@);
                    assert(override_error(ov[i].0, ov[i].1) is None);
                    assert(requires_pair_spec(rv[i].0@) == requires_pair_spec(ov[i].0@));
                }
            }
        }
    }
    o
}

} // verus!
