//! The rendering configuration: a closed vocabulary of named options,
//! validated once per run before any document is processed.
//!
//! The host hands over its settings as plain key/value entries. An entry
//! whose key is not in the vocabulary, or whose value has the wrong
//! type, is a fatal configuration error naming the key; no document is
//! processed under a broken configuration. The reserved key `command` is
//! recognized and intentionally has no effect.

use vstd::prelude::*;
use vstd::string::StrSliceExecFns;
use vstd::string::StringExecFns;
use crate::strutil::{push_str, str_eq};

verus! {

/// A configuration value as delivered by the host: an integer, a
/// non-integral number carried as its decimal text, a boolean, a string,
/// or something of any other host type.
pub enum ConfigValue {
    VInt(i64),
    VNum(String),
    VBool(bool),
    VStr(String),
    VOther,
}

/// The view of a configuration value.
pub ghost enum ValueV {
    Int(i64),
    Num(Seq<char>),
    Bool(bool),
    Str(Seq<char>),
    Other,
}

impl View for ConfigValue {
    type V = ValueV;

    open spec fn view(&self) -> ValueV {
        match self {
            ConfigValue::VInt(i) => ValueV::Int(*i),
            ConfigValue::VNum(s) => ValueV::Num(s@),
            ConfigValue::VBool(b) => ValueV::Bool(*b),
            ConfigValue::VStr(s) => ValueV::Str(s@),
            ConfigValue::VOther => ValueV::Other,
        }
    }
}

/// One named option as delivered by the host.
pub struct ConfigEntry {
    pub key: String,
    pub value: ConfigValue,
}

/// The view of one entry.
pub ghost struct EntryV {
    pub key: Seq<char>,
    pub value: ValueV,
}

impl View for ConfigEntry {
    type V = EntryV;

    open spec fn view(&self) -> EntryV {
        EntryV { key: self.key@, value: self.value@ }
    }
}

/// The views of a sequence of entries.
pub open spec fn entry_views(s: Seq<ConfigEntry>) -> Seq<EntryV> {
    s.map_values(|e: ConfigEntry| e@)
}

/// A validated numeric option value: a whole number, or a non-integral
/// number kept as its decimal text for the renderer boundary to read.
pub enum NumValue {
    Whole(i64),
    Decimal(String),
}

/// The view of a numeric option value.
pub ghost enum NumV {
    Whole(i64),
    Decimal(Seq<char>),
}

impl View for NumValue {
    type V = NumV;

    open spec fn view(&self) -> NumV {
        match self {
            NumValue::Whole(i) => NumV::Whole(*i),
            NumValue::Decimal(s) => NumV::Decimal(s@),
        }
    }
}

/// The validated, run-scoped rendering configuration. Every field is
/// optional: an absent option leaves the renderer's default in force.
pub struct RenderConfig {
    /// Output magnification.
    pub scale: Option<NumValue>,
    /// Padding around the rendered output.
    pub border: Option<NumValue>,
    /// Whether to inject default visual styling.
    pub add_auto_styles: Option<bool>,
    /// Canvas background mode.
    pub background: Option<String>,
    /// Deterministic randomness seed for the renderer.
    pub seed: Option<u64>,
    /// Renderer iteration ceiling.
    pub loop_limit: Option<u32>,
    /// Renderer variable-expansion ceiling.
    pub var_limit: Option<u32>,
    /// Default text size.
    pub font_size: Option<String>,
    /// Default typeface.
    pub font_family: Option<String>,
    /// Named style theme.
    pub theme: Option<String>,
}

/// The view of the rendering configuration.
pub ghost struct RenderConfigV {
    pub scale: Option<NumV>,
    pub border: Option<NumV>,
    pub add_auto_styles: Option<bool>,
    pub background: Option<Seq<char>>,
    pub seed: Option<u64>,
    pub loop_limit: Option<u32>,
    pub var_limit: Option<u32>,
    pub font_size: Option<Seq<char>>,
    pub font_family: Option<Seq<char>>,
    pub theme: Option<Seq<char>>,
}

/// The view of an optional numeric value.
pub open spec fn opt_num_view(o: Option<NumValue>) -> Option<NumV> {
    match o {
        Some(n) => Some(n@),
        None => None,
    }
}

/// The view of an optional string value.
pub open spec fn opt_str_view(o: Option<String>) -> Option<Seq<char>> {
    match o {
        Some(s) => Some(s@),
        None => None,
    }
}

impl View for RenderConfig {
    type V = RenderConfigV;

    open spec fn view(&self) -> RenderConfigV {
        RenderConfigV {
            scale: opt_num_view(self.scale),
            border: opt_num_view(self.border),
            add_auto_styles: self.add_auto_styles,
            background: opt_str_view(self.background),
            seed: self.seed,
            loop_limit: self.loop_limit,
            var_limit: self.var_limit,
            font_size: opt_str_view(self.font_size),
            font_family: opt_str_view(self.font_family),
            theme: opt_str_view(self.theme),
        }
    }
}

/// The configuration before any option was applied.
pub open spec fn spec_empty_config() -> RenderConfigV {
    RenderConfigV {
        scale: None,
        border: None,
        add_auto_styles: None,
        background: None,
        seed: None,
        loop_limit: None,
        var_limit: None,
        font_size: None,
        font_family: None,
        theme: None,
    }
}

impl RenderConfig {
    /// A configuration with every option absent.
    pub fn new() -> (c: RenderConfig)
        ensures
            c@ == spec_empty_config(),
    {
        RenderConfig {
            scale: None,
            border: None,
            add_auto_styles: None,
            background: None,
            seed: None,
            loop_limit: None,
            var_limit: None,
            font_size: None,
            font_family: None,
            theme: None,
        }
    }
}

/// A decimal digit.
pub open spec fn is_digit(c: char) -> bool {
    '0' <= c && c <= '9'
}

/// A text of digits only.
pub open spec fn all_digits(s: Seq<char>) -> bool {
    forall|i: int| 0 <= i < s.len() ==> is_digit(#[trigger] s[i])
}

/// A dot at position `j` of `t` splitting it into two non-empty digit
/// runs.
pub open spec fn decimal_split_at(t: Seq<char>, j: int) -> bool {
    &&& 1 <= j
    &&& j + 1 < t.len()
    &&& t[j] == '.'
    &&& all_digits(t.take(j))
    &&& all_digits(t.skip(j + 1))
}

/// A non-empty digit run, or two digit runs around exactly one dot.
pub open spec fn decimal_digits(t: Seq<char>) -> bool {
    t.len() > 0 && (all_digits(t) || exists|j: int| #[trigger] decimal_split_at(t, j))
}

/// A decimal number: an optional leading minus, then either digits only,
/// or digits around exactly one dot.
pub open spec fn is_decimal(s: Seq<char>) -> bool {
    decimal_digits(
        if s.len() > 0 && s[0] == '-' {
            s.drop_first()
        } else {
            s
        },
    )
}

/// Whether a text is a well-formed decimal number.
pub fn is_decimal_str(s: &str) -> (r: bool)
    ensures
        r == is_decimal(s@),
{
    let n = s.unicode_len();
    let start: usize = if n > 0 && s.get_char(0) == '-' {
        1
    } else {
        0
    };
    let ghost t = if start == 1 {
        s@.drop_first()
    } else {
        s@
    };
    proof {
        assert(forall|k: int| 0 <= k < t.len() ==> t[k] == s@[k + start]);
    }
    if start >= n {
        return false;
    }
    let mut i: usize = start;
    let mut dot: usize = n;
    while i < n
        invariant
            n == s@.len(),
            start <= 1,
            start < n,
            start <= i <= n,
            (start == 1) == (s@.len() > 0 && s@[0] == '-'),
            t == (if start == 1 {
                s@.drop_first()
            } else {
                s@
            }),
            t.len() == n - start,
            forall|k: int| 0 <= k < t.len() ==> t[k] == s@[k + start],
            forall|k: int|
                0 <= k < i - start && (dot == n || k != dot - start) ==> is_digit(#[trigger] t[k]),
            dot == n || (start < dot && dot + 1 < n && dot < i && t[dot - start] == '.'),
        decreases n - i,
    {
        let c = s.get_char(i);
        let ghost p: int = i as int - start as int;
        if c == '.' {
            if dot < n {
                proof {
                    lemma_two_dots_not_decimal(t, dot - start, p);
                }
                return false;
            } else if i == start {
                proof {
                    lemma_leading_dot_not_decimal(t);
                }
                return false;
            } else if i + 1 == n {
                proof {
                    lemma_trailing_dot_not_decimal(t);
                }
                return false;
            }
            dot = i;
        } else if !('0' <= c && c <= '9') {
            proof {
                lemma_stray_char_not_decimal(t, p);
            }
            return false;
        }
        i = i + 1;
    }
    if dot == n {
        proof {
            assert(all_digits(t));
            assert(decimal_digits(t));
        }
        true
    } else {
        proof {
            let j: int = dot - start;
            assert(all_digits(t.take(j))) by {
                assert(forall|k: int| 0 <= k < j ==> is_digit(#[trigger] t.take(j)[k]));
            }
            assert(all_digits(t.skip(j + 1))) by {
                assert(forall|k: int|
                    0 <= k < t.len() - j - 1 ==> is_digit(#[trigger] t.skip(j + 1)[k]));
            }
            assert(decimal_split_at(t, j));
            assert(decimal_digits(t));
        }
        true
    }
}

/// A text whose character at `p` is neither a digit nor a dot is no
/// decimal number.
proof fn lemma_stray_char_not_decimal(t: Seq<char>, p: int)
    requires
        0 <= p < t.len(),
        !is_digit(t[p]),
        t[p] != '.',
    ensures
        !decimal_digits(t),
{
    assert(!all_digits(t));
    assert forall|j: int| !(#[trigger] decimal_split_at(t, j)) by {
        if decimal_split_at(t, j) {
            if p < j {
                assert(t.take(j)[p] == t[p]);
            } else if p == j {
            } else {
                assert(t.skip(j + 1)[p - j - 1] == t[p]);
            }
        }
    }
}

/// A text with dots at two distinct positions is no decimal number.
proof fn lemma_two_dots_not_decimal(t: Seq<char>, d: int, p: int)
    requires
        0 <= d < p < t.len(),
        t[d] == '.',
        t[p] == '.',
    ensures
        !decimal_digits(t),
{
    assert(!is_digit(t[p]));
    assert(!all_digits(t));
    assert forall|j: int| !(#[trigger] decimal_split_at(t, j)) by {
        if decimal_split_at(t, j) {
            if j == d {
                assert(t.skip(j + 1)[p - j - 1] == t[p]);
            } else if j < d {
                assert(t.skip(j + 1)[d - j - 1] == t[d]);
            } else {
                assert(t.take(j)[d] == t[d]);
            }
        }
    }
}

/// A text that starts with a dot is no decimal number.
proof fn lemma_leading_dot_not_decimal(t: Seq<char>)
    requires
        t.len() > 0,
        t[0] == '.',
    ensures
        !decimal_digits(t),
{
    assert(!is_digit(t[0]));
    assert(!all_digits(t));
    assert forall|j: int| !(#[trigger] decimal_split_at(t, j)) by {
        if decimal_split_at(t, j) {
            assert(t.take(j)[0] == t[0]);
        }
    }
}

/// A text that ends with a dot is no decimal number.
proof fn lemma_trailing_dot_not_decimal(t: Seq<char>)
    requires
        t.len() > 0,
        t[t.len() - 1] == '.',
    ensures
        !decimal_digits(t),
{
    let p = t.len() - 1;
    assert(!is_digit(t[p]));
    assert(!all_digits(t));
    assert forall|j: int| !(#[trigger] decimal_split_at(t, j)) by {
        if decimal_split_at(t, j) {
            assert(j < p);
            assert(t.skip(j + 1)[p - j - 1] == t[p]);
        }
    }
}

/// Whether a key belongs to the recognized vocabulary.
pub open spec fn key_ok(k: Seq<char>) -> bool {
    ||| k == "scale"@
    ||| k == "border"@
    ||| k == "add-auto-styles"@
    ||| k == "background"@
    ||| k == "seed"@
    ||| k == "loop-limit"@
    ||| k == "var-limit"@
    ||| k == "font-size"@
    ||| k == "font-family"@
    ||| k == "theme"@
    ||| k == "command"@
}

/// Whether a value has the type its key expects.
pub open spec fn val_ok(k: Seq<char>, v: ValueV) -> bool {
    if k == "scale"@ || k == "border"@ {
        v is Int || (v is Num && is_decimal(v->Num_0))
    } else if k == "add-auto-styles"@ {
        v is Bool
    } else if k == "background"@ {
        v is Str
    } else if k == "seed"@ {
        v is Int && v->Int_0 >= 0
    } else if k == "loop-limit"@ || k == "var-limit"@ {
        v is Int && 0 <= v->Int_0 <= u32::MAX
    } else if k == "font-size"@ || k == "font-family"@ || k == "theme"@ {
        v is Str
    } else {
        k == "command"@
    }
}

/// An entry the validator must reject.
pub open spec fn entry_bad(e: EntryV) -> bool {
    !key_ok(e.key) || !val_ok(e.key, e.value)
}

/// The numeric view a number-typed value validates to.
pub open spec fn spec_num_of(v: ValueV) -> NumV {
    match v {
        ValueV::Int(i) => NumV::Whole(i),
        ValueV::Num(s) => NumV::Decimal(s),
        _ => NumV::Whole(0),
    }
}

/// One recognized, well-typed entry applied to a configuration. Later
/// entries override earlier ones; `command` changes nothing.
pub open spec fn spec_apply(c: RenderConfigV, e: EntryV) -> RenderConfigV {
    if e.key == "scale"@ {
        RenderConfigV { scale: Some(spec_num_of(e.value)), ..c }
    } else if e.key == "border"@ {
        RenderConfigV { border: Some(spec_num_of(e.value)), ..c }
    } else if e.key == "add-auto-styles"@ {
        RenderConfigV { add_auto_styles: Some(e.value->Bool_0), ..c }
    } else if e.key == "background"@ {
        RenderConfigV { background: Some(e.value->Str_0), ..c }
    } else if e.key == "seed"@ {
        RenderConfigV { seed: Some(e.value->Int_0 as u64), ..c }
    } else if e.key == "loop-limit"@ {
        RenderConfigV { loop_limit: Some(e.value->Int_0 as u32), ..c }
    } else if e.key == "var-limit"@ {
        RenderConfigV { var_limit: Some(e.value->Int_0 as u32), ..c }
    } else if e.key == "font-size"@ {
        RenderConfigV { font_size: Some(e.value->Str_0), ..c }
    } else if e.key == "font-family"@ {
        RenderConfigV { font_family: Some(e.value->Str_0), ..c }
    } else if e.key == "theme"@ {
        RenderConfigV { theme: Some(e.value->Str_0), ..c }
    } else {
        c
    }
}

/// All entries applied in order to the empty configuration.
pub open spec fn spec_fold(ps: Seq<EntryV>) -> RenderConfigV
    decreases ps.len(),
{
    if ps.len() == 0 {
        spec_empty_config()
    } else {
        spec_apply(spec_fold(ps.drop_last()), ps.last())
    }
}

/// The first entry the validator must reject, if any.
pub open spec fn first_bad(ps: Seq<EntryV>) -> Option<EntryV>
    decreases ps.len(),
{
    if ps.len() == 0 {
        None
    } else if entry_bad(ps.first()) {
        Some(ps.first())
    } else {
        first_bad(ps.drop_first())
    }
}

/// Why an entry was rejected.
#[derive(Clone, Copy, Debug, PartialEq, Eq, Structural)]
pub enum ConfigErrorKind {
    /// The key is not in the recognized vocabulary.
    UnknownKey,
    /// The value does not have the type the key expects.
    InvalidValue,
}

/// A fatal configuration error: the offending key, and why.
pub struct ConfigError {
    pub key: String,
    pub kind: ConfigErrorKind,
}

/// The message a configuration error carries; it names the key.
pub open spec fn spec_message(key: Seq<char>, kind: ConfigErrorKind) -> Seq<char> {
    if kind == ConfigErrorKind::UnknownKey {
        "unrecognized configuration option '"@ + key + "'"@
    } else {
        "invalid value for configuration option '"@ + key + "'"@
    }
}

impl ConfigError {
    /// A descriptive message naming the offending key.
    pub fn message(&self) -> (m: String)
        ensures
            m@ == spec_message(self.key@, self.kind),
    {
        let mut m = if self.kind == ConfigErrorKind::UnknownKey {
            String::from_str("unrecognized configuration option '")
        } else {
            String::from_str("invalid value for configuration option '")
        };
        push_str(&mut m, self.key.as_str());
        push_str(&mut m, "'");
        m
    }
}

/// `hay` contains `needle` as a contiguous run.
pub open spec fn contains_seq(hay: Seq<char>, needle: Seq<char>) -> bool {
    exists|i: int|
        0 <= i && i + needle.len() <= hay.len() && #[trigger] hay.subrange(i, i + needle.len())
            == needle
}

/// A configuration error's message always contains the offending key's
/// name.
pub proof fn lemma_config_error_names_key(key: Seq<char>, kind: ConfigErrorKind)
    ensures
        contains_seq(spec_message(key, kind), key),
{
    let msg = spec_message(key, kind);
    let p: Seq<char> = if kind == ConfigErrorKind::UnknownKey {
        "unrecognized configuration option '"@
    } else {
        "invalid value for configuration option '"@
    };
    assert(msg.subrange(p.len() as int, (p.len() + key.len()) as int) =~= key);
}

/// The first rejected entry is the one the scan stopped at.
proof fn lemma_first_bad_at(ps: Seq<EntryV>, i: int)
    requires
        0 <= i < ps.len(),
        forall|k: int| 0 <= k < i ==> !entry_bad(#[trigger] ps[k]),
        entry_bad(ps[i]),
    ensures
        first_bad(ps) == Some(ps[i]),
    decreases i,
{
    if i == 0 {
    } else {
        assert(!entry_bad(ps.first()));
        assert(forall|k: int|
            0 <= k < i - 1 ==> !entry_bad(#[trigger] ps.drop_first()[k]));
        assert(ps.drop_first()[i - 1] == ps[i]);
        lemma_first_bad_at(ps.drop_first(), i - 1);
    }
}

/// A scan that rejected nothing leaves no entry to reject.
proof fn lemma_first_bad_none(ps: Seq<EntryV>)
    requires
        forall|k: int| 0 <= k < ps.len() ==> !entry_bad(#[trigger] ps[k]),
    ensures
        first_bad(ps) is None,
    decreases ps.len(),
{
    if ps.len() == 0 {
    } else {
        assert(forall|k: int|
            0 <= k < ps.drop_first().len() ==> !entry_bad(#[trigger] ps.drop_first()[k]));
        lemma_first_bad_none(ps.drop_first());
    }
}

/// Validates the host's entries against the recognized vocabulary,
/// applying them in order. Fails on the first entry whose key is
/// unknown or whose value has the wrong type, naming that key.
pub fn validate_config(entries: &Vec<ConfigEntry>) -> (r: Result<RenderConfig, ConfigError>)
    ensures
        r is Ok <==> first_bad(entry_views(entries@)) is None,
        r matches Ok(c) ==> c@ == spec_fold(entry_views(entries@)),
        r matches Err(e) ==> {
            &&& first_bad(entry_views(entries@)) matches Some(b) && b.key == e.key@
            &&& (e.kind == ConfigErrorKind::UnknownKey <==> !key_ok(e.key@))
        },
{
    let ghost all = entry_views(entries@);
    let mut cfg = RenderConfig::new();
    let mut i: usize = 0;
    proof {
        assert(all.take(0) =~= Seq::<EntryV>::empty());
    }
    while i < entries.len()
        invariant
            i <= entries.len(),
            all == entry_views(entries@),
            all.len() == entries@.len(),
            cfg@ == spec_fold(all.take(i as int)),
            forall|k: int| 0 <= k < i ==> !entry_bad(#[trigger] all[k]),
        decreases entries.len() - i,
    {
        let entry = &entries[i];
        let ghost e_v = all[i as int];
        proof {
            assert(e_v == entry@);
        }
        let k = entry.key.as_str();
        if str_eq(k, "scale") {
            match &entry.value {
                ConfigValue::VInt(n) => cfg.scale = Some(NumValue::Whole(*n)),
                ConfigValue::VNum(s) => {
                    if is_decimal_str(s.as_str()) {
                        cfg.scale = Some(NumValue::Decimal(s.clone()));
                    } else {
                        proof {
                            lemma_first_bad_at(all, i as int);
                        }
                        return Err(
                            ConfigError {
                                key: entry.key.clone(),
                                kind: ConfigErrorKind::InvalidValue,
                            },
                        );
                    }
                },
                _ => {
                    proof {
                        lemma_first_bad_at(all, i as int);
                    }
                    return Err(
                        ConfigError { key: entry.key.clone(), kind: ConfigErrorKind::InvalidValue },
                    );
                },
            }
        } else if str_eq(k, "border") {
            match &entry.value {
                ConfigValue::VInt(n) => cfg.border = Some(NumValue::Whole(*n)),
                ConfigValue::VNum(s) => {
                    if is_decimal_str(s.as_str()) {
                        cfg.border = Some(NumValue::Decimal(s.clone()));
                    } else {
                        proof {
                            lemma_first_bad_at(all, i as int);
                        }
                        return Err(
                            ConfigError {
                                key: entry.key.clone(),
                                kind: ConfigErrorKind::InvalidValue,
                            },
                        );
                    }
                },
                _ => {
                    proof {
                        lemma_first_bad_at(all, i as int);
                    }
                    return Err(
                        ConfigError { key: entry.key.clone(), kind: ConfigErrorKind::InvalidValue },
                    );
                },
            }
        } else if str_eq(k, "add-auto-styles") {
            match &entry.value {
                ConfigValue::VBool(b) => cfg.add_auto_styles = Some(*b),
                _ => {
                    proof {
                        lemma_first_bad_at(all, i as int);
                    }
                    return Err(
                        ConfigError { key: entry.key.clone(), kind: ConfigErrorKind::InvalidValue },
                    );
                },
            }
        } else if str_eq(k, "background") {
            match &entry.value {
                ConfigValue::VStr(s) => cfg.background = Some(s.clone()),
                _ => {
                    proof {
                        lemma_first_bad_at(all, i as int);
                    }
                    return Err(
                        ConfigError { key: entry.key.clone(), kind: ConfigErrorKind::InvalidValue },
                    );
                },
            }
        } else if str_eq(k, "seed") {
            match &entry.value {
                ConfigValue::VInt(n) => {
                    if *n >= 0 {
                        cfg.seed = Some(*n as u64);
                    } else {
                        proof {
                            lemma_first_bad_at(all, i as int);
                        }
                        return Err(
                            ConfigError {
                                key: entry.key.clone(),
                                kind: ConfigErrorKind::InvalidValue,
                            },
                        );
                    }
                },
                _ => {
                    proof {
                        lemma_first_bad_at(all, i as int);
                    }
                    return Err(
                        ConfigError { key: entry.key.clone(), kind: ConfigErrorKind::InvalidValue },
                    );
                },
            }
        } else if str_eq(k, "loop-limit") {
            match &entry.value {
                ConfigValue::VInt(n) => {
                    if *n >= 0 && *n <= u32::MAX as i64 {
                        cfg.loop_limit = Some(*n as u32);
                    } else {
                        proof {
                            lemma_first_bad_at(all, i as int);
                        }
                        return Err(
                            ConfigError {
                                key: entry.key.clone(),
                                kind: ConfigErrorKind::InvalidValue,
                            },
                        );
                    }
                },
                _ => {
                    proof {
                        lemma_first_bad_at(all, i as int);
                    }
                    return Err(
                        ConfigError { key: entry.key.clone(), kind: ConfigErrorKind::InvalidValue },
                    );
                },
            }
        } else if str_eq(k, "var-limit") {
            match &entry.value {
                ConfigValue::VInt(n) => {
                    if *n >= 0 && *n <= u32::MAX as i64 {
                        cfg.var_limit = Some(*n as u32);
                    } else {
                        proof {
                            lemma_first_bad_at(all, i as int);
                        }
                        return Err(
                            ConfigError {
                                key: entry.key.clone(),
                                kind: ConfigErrorKind::InvalidValue,
                            },
                        );
                    }
                },
                _ => {
                    proof {
                        lemma_first_bad_at(all, i as int);
                    }
                    return Err(
                        ConfigError { key: entry.key.clone(), kind: ConfigErrorKind::InvalidValue },
                    );
                },
            }
        } else if str_eq(k, "font-size") {
            match &entry.value {
                ConfigValue::VStr(s) => cfg.font_size = Some(s.clone()),
                _ => {
                    proof {
                        lemma_first_bad_at(all, i as int);
                    }
                    return Err(
                        ConfigError { key: entry.key.clone(), kind: ConfigErrorKind::InvalidValue },
                    );
                },
            }
        } else if str_eq(k, "font-family") {
            match &entry.value {
                ConfigValue::VStr(s) => cfg.font_family = Some(s.clone()),
                _ => {
                    proof {
                        lemma_first_bad_at(all, i as int);
                    }
                    return Err(
                        ConfigError { key: entry.key.clone(), kind: ConfigErrorKind::InvalidValue },
                    );
                },
            }
        } else if str_eq(k, "theme") {
            match &entry.value {
                ConfigValue::VStr(s) => cfg.theme = Some(s.clone()),
                _ => {
                    proof {
                        lemma_first_bad_at(all, i as int);
                    }
                    return Err(
                        ConfigError { key: entry.key.clone(), kind: ConfigErrorKind::InvalidValue },
                    );
                },
            }
        } else if str_eq(k, "command") {
            // reserved: recognized, intentionally without effect
        } else {
            proof {
                lemma_first_bad_at(all, i as int);
            }
            return Err(ConfigError { key: entry.key.clone(), kind: ConfigErrorKind::UnknownKey });
        }
        proof {
            assert(!entry_bad(e_v));
            assert(all.take(i + 1).drop_last() =~= all.take(i as int));
            assert(all.take(i + 1).last() == e_v);
            assert(cfg@ == spec_apply(spec_fold(all.take(i as int)), e_v));
        }
        i = i + 1;
    }
    proof {
        assert(all.take(all.len() as int) =~= all);
        lemma_first_bad_none(all);
    }
    Ok(cfg)
}

} // verus!
