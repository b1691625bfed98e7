//! Settings: the immutable snapshot of options, and its resolution by
//! folding partial fragments over compiled-in defaults, with environment
//! overrides applied last.

use vstd::prelude::*;

use crate::error::{Error, ErrorModel};
use crate::strutil::{join, join_with, spec_split_sep, split_sep, str_eq};
use crate::version::{all_digits, digit_char, is_digit};

verus! {

/// The resolved settings snapshot.  Every option has a defined default;
/// none is ever missing.
#[derive(Debug)]
pub struct Settings {
    pub always_keep_download: bool,
    pub disable_tools: Vec<String>,
    pub experimental: bool,
    pub jobs: u64,
    pub legacy_version_file: bool,
    pub legacy_version_file_disable_tools: Vec<String>,
    pub raw: bool,
    pub verbose: bool,
}

/// Spec model of [`Settings`].
#[verifier::ext_equal]
pub ghost struct SettingsModel {
    pub always_keep_download: bool,
    pub disable_tools: Seq<Seq<char>>,
    pub experimental: bool,
    pub jobs: u64,
    pub legacy_version_file: bool,
    pub legacy_version_file_disable_tools: Seq<Seq<char>>,
    pub raw: bool,
    pub verbose: bool,
}

impl View for Settings {
    type V = SettingsModel;

    open spec fn view(&self) -> SettingsModel {
        SettingsModel {
            always_keep_download: self.always_keep_download,
            disable_tools: self.disable_tools.deep_view(),
            experimental: self.experimental,
            jobs: self.jobs,
            legacy_version_file: self.legacy_version_file,
            legacy_version_file_disable_tools: self.legacy_version_file_disable_tools.deep_view(),
            raw: self.raw,
            verbose: self.verbose,
        }
    }
}

/// One source's settings overrides: only what the source set.
#[derive(Debug)]
pub struct SettingsPartial {
    pub always_keep_download: Option<bool>,
    pub disable_tools: Option<Vec<String>>,
    pub experimental: Option<bool>,
    pub jobs: Option<u64>,
    pub legacy_version_file: Option<bool>,
    pub legacy_version_file_disable_tools: Option<Vec<String>>,
    pub raw: Option<bool>,
    pub verbose: Option<bool>,
}

/// Spec model of [`SettingsPartial`].
#[verifier::ext_equal]
pub ghost struct PartialModel {
    pub always_keep_download: Option<bool>,
    pub disable_tools: Option<Seq<Seq<char>>>,
    pub experimental: Option<bool>,
    pub jobs: Option<u64>,
    pub legacy_version_file: Option<bool>,
    pub legacy_version_file_disable_tools: Option<Seq<Seq<char>>>,
    pub raw: Option<bool>,
    pub verbose: Option<bool>,
}

impl View for SettingsPartial {
    type V = PartialModel;

    open spec fn view(&self) -> PartialModel {
        PartialModel {
            always_keep_download: self.always_keep_download,
            disable_tools: match self.disable_tools {
                Option::Some(v) => Option::Some(v.deep_view()),
                Option::None => Option::None,
            },
            experimental: self.experimental,
            jobs: self.jobs,
            legacy_version_file: self.legacy_version_file,
            legacy_version_file_disable_tools: match self.legacy_version_file_disable_tools {
                Option::Some(v) => Option::Some(v.deep_view()),
                Option::None => Option::None,
            },
            raw: self.raw,
            verbose: self.verbose,
        }
    }
}

impl SettingsPartial {
    /// A fragment that sets nothing.
    pub fn empty() -> (r: SettingsPartial)
        ensures
            r@ == spec_empty_partial(),
    {
        SettingsPartial {
            always_keep_download: None,
            disable_tools: None,
            experimental: None,
            jobs: None,
            legacy_version_file: None,
            legacy_version_file_disable_tools: None,
            raw: None,
            verbose: None,
        }
    }
}

/// The fragment that sets nothing.
pub open spec fn spec_empty_partial() -> PartialModel {
    PartialModel {
        always_keep_download: Option::None,
        disable_tools: Option::None,
        experimental: Option::None,
        jobs: Option::None,
        legacy_version_file: Option::None,
        legacy_version_file_disable_tools: Option::None,
        raw: Option::None,
        verbose: Option::None,
    }
}

/// The compiled-in defaults.
pub open spec fn spec_default_settings() -> SettingsModel {
    SettingsModel {
        always_keep_download: false,
        disable_tools: Seq::empty(),
        experimental: false,
        jobs: 4,
        legacy_version_file: true,
        legacy_version_file_disable_tools: Seq::empty(),
        raw: false,
        verbose: false,
    }
}

/// A fragment folded over a snapshot: each option the fragment set
/// overrides, field by field; the rest is kept.
pub open spec fn spec_apply(s: SettingsModel, p: PartialModel) -> SettingsModel {
    SettingsModel {
        always_keep_download: match p.always_keep_download {
            Option::Some(b) => b,
            Option::None => s.always_keep_download,
        },
        disable_tools: match p.disable_tools {
            Option::Some(v) => v,
            Option::None => s.disable_tools,
        },
        experimental: match p.experimental {
            Option::Some(b) => b,
            Option::None => s.experimental,
        },
        jobs: match p.jobs {
            Option::Some(j) => j,
            Option::None => s.jobs,
        },
        legacy_version_file: match p.legacy_version_file {
            Option::Some(b) => b,
            Option::None => s.legacy_version_file,
        },
        legacy_version_file_disable_tools: match p.legacy_version_file_disable_tools {
            Option::Some(v) => v,
            Option::None => s.legacy_version_file_disable_tools,
        },
        raw: match p.raw {
            Option::Some(b) => b,
            Option::None => s.raw,
        },
        verbose: match p.verbose {
            Option::Some(b) => b,
            Option::None => s.verbose,
        },
    }
}

/// Folding fragments in order over the defaults: later fragments win,
/// field by field.
pub open spec fn spec_load(ps: Seq<PartialModel>) -> SettingsModel {
    ps.fold_left(spec_default_settings(), |s: SettingsModel, p: PartialModel| spec_apply(s, p))
}

/// One step of [`spec_load`].
pub proof fn lemma_load_step(ps: Seq<PartialModel>, i: int)
    requires
        0 <= i < ps.len(),
    ensures
        spec_load(ps.take(i + 1)) == spec_apply(spec_load(ps.take(i)), ps[i]),
{
    assert(ps.take(i + 1).drop_last() =~= ps.take(i));
    assert(ps.take(i + 1).last() == ps[i]);
}

impl Default for Settings {
    /// The compiled-in defaults.
    fn default() -> (r: Settings)
        ensures
            r@ == spec_default_settings(),
    {
        let r = Settings {
            always_keep_download: false,
            disable_tools: Vec::new(),
            experimental: false,
            jobs: 4,
            legacy_version_file: true,
            legacy_version_file_disable_tools: Vec::new(),
            raw: false,
            verbose: false,
        };
        proof {
            assert(r@ =~~= spec_default_settings());
        }
        r
    }
}

/// Collects settings fragments in precedence order (lowest first) and
/// folds them into one snapshot.
#[derive(Debug)]
pub struct SettingsBuilder {
    pub partials: Vec<SettingsPartial>,
}

impl SettingsBuilder {
    /// A builder holding no fragments yet.
    pub fn new() -> (r: SettingsBuilder)
        ensures
            r.partials@.len() == 0,
    {
        SettingsBuilder { partials: Vec::new() }
    }

    /// Adds the next (higher-precedence) fragment.
    pub fn preloaded(self, p: SettingsPartial) -> (r: SettingsBuilder)
        ensures
            r.partials@ == self.partials@.push(p),
    {
        let mut b = self;
        b.partials.push(p);
        b
    }

    /// Folds all fragments over the defaults.
    pub fn load(self) -> (r: Settings)
        ensures
            r@ == spec_load(self.partials@.map_values(|p: SettingsPartial| p@)),
    {
        let ghost pm = self.partials@.map_values(|p: SettingsPartial| p@);
        let mut s = Settings::default();
        let mut i: usize = 0;
        proof {
            assert(pm.take(0) =~= Seq::<PartialModel>::empty());
        }
        while i < self.partials.len()
            invariant
                pm == self.partials@.map_values(|p: SettingsPartial| p@),
                i <= self.partials.len(),
                s@ == spec_load(pm.take(i as int)),
            decreases self.partials.len() - i,
        {
            apply_partial(&mut s, &self.partials[i]);
            proof {
                lemma_load_step(pm, i as int);
            }
            i = i + 1;
        }
        proof {
            assert(pm.take(self.partials.len() as int) =~= pm);
        }
        s
    }
}

/// Applies one fragment to a snapshot in place.
fn apply_partial(s: &mut Settings, p: &SettingsPartial)
    ensures
        final(s)@ == spec_apply(old(s)@, p@),
{
    match &p.always_keep_download {
        Some(b) => {
            s.always_keep_download = *b;
        },
        None => {},
    }
    match &p.disable_tools {
        Some(v) => {
            s.disable_tools = crate::strutil::clone_strings(v);
        },
        None => {},
    }
    match &p.experimental {
        Some(b) => {
            s.experimental = *b;
        },
        None => {},
    }
    match &p.jobs {
        Some(j) => {
            s.jobs = *j;
        },
        None => {},
    }
    match &p.legacy_version_file {
        Some(b) => {
            s.legacy_version_file = *b;
        },
        None => {},
    }
    match &p.legacy_version_file_disable_tools {
        Some(v) => {
            s.legacy_version_file_disable_tools = crate::strutil::clone_strings(v);
        },
        None => {},
    }
    match &p.raw {
        Some(b) => {
            s.raw = *b;
        },
        None => {},
    }
    match &p.verbose {
        Some(b) => {
            s.verbose = *b;
        },
        None => {},
    }
    proof {
        assert(s@ =~~= spec_apply(old(s)@, p@));
    }
}

/// The numeric value of a digit character.
pub open spec fn digit_val(c: char) -> nat {
    (c as u32 - 0x30) as nat
}

/// The value of a run of digits, most significant first.
pub open spec fn spec_digits_value(s: Seq<char>) -> nat
    decreases s.len(),
{
    if s.len() == 0 {
        0
    } else {
        spec_digits_value(s.drop_last()) * 10 + digit_val(s.last())
    }
}

/// Ten to the `n`.
pub open spec fn spec_pow10(n: nat) -> nat
    decreases n,
{
    if n == 0 {
        1nat
    } else {
        10 * spec_pow10((n - 1) as nat)
    }
}

/// A run of digits is bounded by ten to its length.
pub proof fn lemma_digits_bound(s: Seq<char>)
    requires
        forall|i: int| 0 <= i < s.len() ==> is_digit(#[trigger] s[i]),
    ensures
        spec_digits_value(s) < spec_pow10(s.len() as nat),
    decreases s.len(),
{
    if s.len() > 0 {
        lemma_digits_bound(s.drop_last());
        assert(digit_val(s.last()) <= 9);
        assert(spec_digits_value(s.drop_last()) * 10 + digit_val(s.last()) < spec_pow10(
            s.len() as nat,
        )) by (nonlinear_arith)
            requires
                spec_digits_value(s.drop_last()) < spec_pow10((s.len() - 1) as nat),
                digit_val(s.last()) <= 9,
                spec_pow10(s.len() as nat) == 10 * spec_pow10((s.len() - 1) as nat),
        ;
    }
}

/// Ten to the eighteenth, evaluated.
pub proof fn lemma_pow10_18()
    ensures
        spec_pow10(18) == 1000000000000000000,
{
    assert(spec_pow10(0) == 1);
    assert(spec_pow10(1) == 10);
    assert(spec_pow10(2) == 100);
    assert(spec_pow10(3) == 1000);
    assert(spec_pow10(4) == 10000);
    assert(spec_pow10(5) == 100000);
    assert(spec_pow10(6) == 1000000);
    assert(spec_pow10(7) == 10000000);
    assert(spec_pow10(8) == 100000000);
    assert(spec_pow10(9) == 1000000000);
    assert(spec_pow10(10) == 10000000000);
    assert(spec_pow10(11) == 100000000000);
    assert(spec_pow10(12) == 1000000000000);
    assert(spec_pow10(13) == 10000000000000);
    assert(spec_pow10(14) == 100000000000000);
    assert(spec_pow10(15) == 1000000000000000);
    assert(spec_pow10(16) == 10000000000000000);
    assert(spec_pow10(17) == 100000000000000000);
    assert(spec_pow10(18) == 1000000000000000000);
}

/// Ten-powers grow.
pub proof fn lemma_pow10_mono(a: nat, b: nat)
    requires
        a <= b,
    ensures
        spec_pow10(a) <= spec_pow10(b),
    decreases b - a,
{
    if a < b {
        lemma_pow10_mono(a, (b - 1) as nat);
        assert(spec_pow10(b) == 10 * spec_pow10((b - 1) as nat));
    }
}

/// Parses a decimal number of at most nineteen digits.
pub fn parse_u64(v: &str) -> (r: Option<u64>)
    ensures
        match r {
            Option::Some(x) => all_digits(v@) && v@.len() <= 19 && x as nat == spec_digits_value(
                v@,
            ),
            Option::None => !(all_digits(v@) && v@.len() <= 19),
        },
{
    let n: usize = v.unicode_len();
    if n == 0 || n > 19 {
        return None;
    }
    let mut acc: u64 = 0;
    let mut i: usize = 0;
    proof {
        assert(v@.take(0).len() == 0);
    }
    while i < n
        invariant
            n == v@.len(),
            1 <= n <= 19,
            i <= n,
            forall|j: int| 0 <= j < i ==> is_digit(#[trigger] v@[j]),
            acc as nat == spec_digits_value(v@.take(i as int)),
        decreases n - i,
    {
        let c = v.get_char(i);
        if !digit_char(c) {
            return None;
        }
        let d: u64 = (c as u32 as u64) - 48;
        proof {
            lemma_digits_bound(v@.take(i as int));
            lemma_pow10_mono(i as nat, 18);
            lemma_pow10_18();
            assert((acc as nat) < 1000000000000000000);
            assert(d <= 9);
            assert(v@.take(i + 1).drop_last() =~= v@.take(i as int));
            assert(v@.take(i + 1).last() == v@[i as int]);
            assert(digit_val(v@[i as int]) == d as nat);
        }
        acc = acc * 10 + d;
        i = i + 1;
    }
    proof {
        assert(v@.take(n as int) =~= v@);
    }
    Some(acc)
}

/// The digit character for a value below ten.
pub open spec fn digit_char_of(d: nat) -> char {
    if d == 0 {
        '0'
    } else if d == 1 {
        '1'
    } else if d == 2 {
        '2'
    } else if d == 3 {
        '3'
    } else if d == 4 {
        '4'
    } else if d == 5 {
        '5'
    } else if d == 6 {
        '6'
    } else if d == 7 {
        '7'
    } else if d == 8 {
        '8'
    } else {
        '9'
    }
}

/// The decimal digits of a number, most significant first.
pub open spec fn spec_u64_digits(n: nat) -> Seq<char>
    decreases n,
{
    if n < 10 {
        seq![digit_char_of(n)]
    } else {
        spec_u64_digits(n / 10).push(digit_char_of(n % 10))
    }
}

/// One digit as text.
fn digit_str(d: u64) -> (r: &'static str)
    requires
        d < 10,
    ensures
        r@ == seq![digit_char_of(d as nat)],
{
    let r: &'static str = if d == 0 {
        "0"
    } else if d == 1 {
        "1"
    } else if d == 2 {
        "2"
    } else if d == 3 {
        "3"
    } else if d == 4 {
        "4"
    } else if d == 5 {
        "5"
    } else if d == 6 {
        "6"
    } else if d == 7 {
        "7"
    } else if d == 8 {
        "8"
    } else {
        "9"
    };
    proof {
        reveal_strlit("0");
        reveal_strlit("1");
        reveal_strlit("2");
        reveal_strlit("3");
        reveal_strlit("4");
        reveal_strlit("5");
        reveal_strlit("6");
        reveal_strlit("7");
        reveal_strlit("8");
        reveal_strlit("9");
        assert(r@ =~= seq![digit_char_of(d as nat)]);
    }
    r
}

/// Writes a number in decimal.
pub fn u64_string(n: u64) -> (r: String)
    ensures
        r@ == spec_u64_digits(n as nat),
    decreases n,
{
    if n < 10 {
        String::from_str(digit_str(n))
    } else {
        let r = u64_string(n / 10).concat(digit_str(n % 10));
        proof {
            assert(r@ =~= spec_u64_digits((n / 10) as nat).push(digit_char_of((n % 10) as nat)));
        }
        r
    }
}

/// `true` or `false`, as text.
pub open spec fn spec_bool_string(b: bool) -> Seq<char> {
    if b {
        "true"@
    } else {
        "false"@
    }
}

/// What a boolean setting value means: `true`/`1`/`yes` and
/// `false`/`0`/`no` are accepted, anything else is malformed.
pub open spec fn spec_parse_bool(v: Seq<char>) -> Option<bool> {
    if v == "true"@ || v == "1"@ || v == "yes"@ {
        Option::Some(true)
    } else if v == "false"@ || v == "0"@ || v == "no"@ {
        Option::Some(false)
    } else {
        Option::None
    }
}

/// Parses a boolean setting value.
pub fn parse_bool(v: &str) -> (r: Option<bool>)
    ensures
        r == spec_parse_bool(v@),
{
    if str_eq(v, "true") || str_eq(v, "1") || str_eq(v, "yes") {
        Some(true)
    } else if str_eq(v, "false") || str_eq(v, "0") || str_eq(v, "no") {
        Some(false)
    } else {
        None
    }
}

/// Is `key` the name of a setting?
pub open spec fn spec_setting_known(key: Seq<char>) -> bool {
    key == "always_keep_download"@ || key == "disable_tools"@ || key == "experimental"@ || key
        == "jobs"@ || key == "legacy_version_file"@ || key == "legacy_version_file_disable_tools"@
        || key == "raw"@ || key == "verbose"@
}

/// What a known setting entry means, or nothing when the value is
/// malformed.  Booleans follow [`spec_parse_bool`], `jobs` is a decimal
/// number, list settings are comma-separated.
pub open spec fn spec_parse_setting(key: Seq<char>, value: Seq<char>) -> Option<PartialModel> {
    let e = spec_empty_partial();
    if key == "always_keep_download"@ {
        match spec_parse_bool(value) {
            Option::Some(b) => Option::Some(PartialModel { always_keep_download: Option::Some(b), ..e }),
            Option::None => Option::None,
        }
    } else if key == "disable_tools"@ {
        Option::Some(PartialModel { disable_tools: Option::Some(spec_split_sep(value, ',')), ..e })
    } else if key == "experimental"@ {
        match spec_parse_bool(value) {
            Option::Some(b) => Option::Some(PartialModel { experimental: Option::Some(b), ..e }),
            Option::None => Option::None,
        }
    } else if key == "jobs"@ {
        if all_digits(value) && value.len() <= 19 {
            Option::Some(
                PartialModel { jobs: Option::Some(spec_digits_value(value) as u64), ..e },
            )
        } else {
            Option::None
        }
    } else if key == "legacy_version_file"@ {
        match spec_parse_bool(value) {
            Option::Some(b) => Option::Some(
                PartialModel { legacy_version_file: Option::Some(b), ..e },
            ),
            Option::None => Option::None,
        }
    } else if key == "legacy_version_file_disable_tools"@ {
        Option::Some(
            PartialModel {
                legacy_version_file_disable_tools: Option::Some(spec_split_sep(value, ',')),
                ..e
            },
        )
    } else if key == "raw"@ {
        match spec_parse_bool(value) {
            Option::Some(b) => Option::Some(PartialModel { raw: Option::Some(b), ..e }),
            Option::None => Option::None,
        }
    } else {
        match spec_parse_bool(value) {
            Option::Some(b) => Option::Some(PartialModel { verbose: Option::Some(b), ..e }),
            Option::None => Option::None,
        }
    }
}

/// Parses one settings entry.  An unknown key, or a malformed value for a
/// known key, fails the whole load with an error naming the key and the
/// source.
pub fn parse_setting(key: &str, value: &str, source: &str) -> (r: Result<SettingsPartial, Error>)
    ensures
        match r {
            Result::Ok(p) => spec_setting_known(key@) && spec_parse_setting(key@, value@)
                == Option::Some(p@),
            Result::Err(e) => if spec_setting_known(key@) {
                spec_parse_setting(key@, value@).is_none() && e@ == (ErrorModel::Parse {
                    path: source@,
                    detail: "invalid value for setting "@ + key@,
                })
            } else {
                e@ == (ErrorModel::Parse { path: source@, detail: "unknown setting: "@ + key@ })
            },
        },
{
    if str_eq(key, "always_keep_download") {
        match parse_bool(value) {
            Some(b) => {
                let mut p = SettingsPartial::empty();
                p.always_keep_download = Some(b);
                proof {
                    assert(spec_parse_setting(key@, value@) =~~= Option::Some(p@));
                }
                Ok(p)
            },
            None => Err(invalid_value(key, source)),
        }
    } else if str_eq(key, "disable_tools") {
        let mut p = SettingsPartial::empty();
        p.disable_tools = Some(split_sep(value, ','));
        proof {
            assert(spec_parse_setting(key@, value@) =~~= Option::Some(p@));
        }
        Ok(p)
    } else if str_eq(key, "experimental") {
        match parse_bool(value) {
            Some(b) => {
                let mut p = SettingsPartial::empty();
                p.experimental = Some(b);
                proof {
                    assert(spec_parse_setting(key@, value@) =~~= Option::Some(p@));
                }
                Ok(p)
            },
            None => Err(invalid_value(key, source)),
        }
    } else if str_eq(key, "jobs") {
        match parse_u64(value) {
            Some(j) => {
                let mut p = SettingsPartial::empty();
                p.jobs = Some(j);
                proof {
                    assert(spec_parse_setting(key@, value@) =~~= Option::Some(p@));
                }
                Ok(p)
            },
            None => Err(invalid_value(key, source)),
        }
    } else if str_eq(key, "legacy_version_file") {
        match parse_bool(value) {
            Some(b) => {
                let mut p = SettingsPartial::empty();
                p.legacy_version_file = Some(b);
                proof {
                    assert(spec_parse_setting(key@, value@) =~~= Option::Some(p@));
                }
                Ok(p)
            },
            None => Err(invalid_value(key, source)),
        }
    } else if str_eq(key, "legacy_version_file_disable_tools") {
        let mut p = SettingsPartial::empty();
        p.legacy_version_file_disable_tools = Some(split_sep(value, ','));
        proof {
            assert(spec_parse_setting(key@, value@) =~~= Option::Some(p@));
        }
        Ok(p)
    } else if str_eq(key, "raw") {
        match parse_bool(value) {
            Some(b) => {
                let mut p = SettingsPartial::empty();
                p.raw = Some(b);
                proof {
                    assert(spec_parse_setting(key@, value@) =~~= Option::Some(p@));
                }
                Ok(p)
            },
            None => Err(invalid_value(key, source)),
        }
    } else if str_eq(key, "verbose") {
        match parse_bool(value) {
            Some(b) => {
                let mut p = SettingsPartial::empty();
                p.verbose = Some(b);
                proof {
                    assert(spec_parse_setting(key@, value@) =~~= Option::Some(p@));
                }
                Ok(p)
            },
            None => Err(invalid_value(key, source)),
        }
    } else {
        Err(
            Error::Parse {
                path: String::from_str(source),
                detail: String::from_str("unknown setting: ").concat(key),
            },
        )
    }
}

/// The error for a malformed value of a known key.
fn invalid_value(key: &str, source: &str) -> (e: Error)
    ensures
        e@ == (ErrorModel::Parse { path: source@, detail: "invalid value for setting "@ + key@ }),
{
    Error::Parse {
        path: String::from_str(source),
        detail: String::from_str("invalid value for setting ").concat(key),
    }
}

impl Settings {
    /// Every setting with its value, in name order, as `name`/`value`
    /// text pairs.
    pub fn to_index_map(&self) -> (r: Vec<(String, String)>)
        ensures
            r.deep_view() == spec_index_map(self@),
    {
        let mut r: Vec<(String, String)> = Vec::new();
        r.push(
            (
                String::from_str("always_keep_download"),
                bool_string(self.always_keep_download),
            ),
        );
        r.push((String::from_str("disable_tools"), join(&self.disable_tools, ",")));
        r.push((String::from_str("experimental"), bool_string(self.experimental)));
        r.push((String::from_str("jobs"), u64_string(self.jobs)));
        r.push((String::from_str("legacy_version_file"), bool_string(self.legacy_version_file)));
        r.push(
            (
                String::from_str("legacy_version_file_disable_tools"),
                join(&self.legacy_version_file_disable_tools, ","),
            ),
        );
        r.push((String::from_str("raw"), bool_string(self.raw)));
        r.push((String::from_str("verbose"), bool_string(self.verbose)));
        proof {
            assert(r.deep_view() =~~= spec_index_map(self@));
        }
        r
    }
}

/// The settings listing: every option and its value, in name order.
pub open spec fn spec_index_map(s: SettingsModel) -> Seq<(Seq<char>, Seq<char>)> {
    seq![
        ("always_keep_download"@, spec_bool_string(s.always_keep_download)),
        ("disable_tools"@, join_with(s.disable_tools, ","@)),
        ("experimental"@, spec_bool_string(s.experimental)),
        ("jobs"@, spec_u64_digits(s.jobs as nat)),
        ("legacy_version_file"@, spec_bool_string(s.legacy_version_file)),
        (
            "legacy_version_file_disable_tools"@,
            join_with(s.legacy_version_file_disable_tools, ","@),
        ),
        ("raw"@, spec_bool_string(s.raw)),
        ("verbose"@, spec_bool_string(s.verbose)),
    ]
}

/// `true` or `false`.
pub fn bool_string(b: bool) -> (r: String)
    ensures
        r@ == spec_bool_string(b),
{
    if b {
        String::from_str("true")
    } else {
        String::from_str("false")
    }
}

/// The setting a reserved environment variable stands for, if any; other
/// environment variables have no meaning here.
pub open spec fn spec_env_setting_name(k: Seq<char>) -> Option<Seq<char>> {
    if k == "RTX_ALWAYS_KEEP_DOWNLOAD"@ {
        Option::Some("always_keep_download"@)
    } else if k == "RTX_DISABLE_TOOLS"@ {
        Option::Some("disable_tools"@)
    } else if k == "RTX_EXPERIMENTAL"@ {
        Option::Some("experimental"@)
    } else if k == "RTX_JOBS"@ {
        Option::Some("jobs"@)
    } else if k == "RTX_LEGACY_VERSION_FILE"@ {
        Option::Some("legacy_version_file"@)
    } else if k == "RTX_LEGACY_VERSION_FILE_DISABLE_TOOLS"@ {
        Option::Some("legacy_version_file_disable_tools"@)
    } else if k == "RTX_RAW"@ {
        Option::Some("raw"@)
    } else if k == "RTX_VERBOSE"@ {
        Option::Some("verbose"@)
    } else {
        Option::None
    }
}

/// A later fragment merged over an earlier one, field by field.
pub open spec fn spec_merge_partial(a: PartialModel, b: PartialModel) -> PartialModel {
    PartialModel {
        always_keep_download: if b.always_keep_download.is_some() {
            b.always_keep_download
        } else {
            a.always_keep_download
        },
        disable_tools: if b.disable_tools.is_some() {
            b.disable_tools
        } else {
            a.disable_tools
        },
        experimental: if b.experimental.is_some() {
            b.experimental
        } else {
            a.experimental
        },
        jobs: if b.jobs.is_some() {
            b.jobs
        } else {
            a.jobs
        },
        legacy_version_file: if b.legacy_version_file.is_some() {
            b.legacy_version_file
        } else {
            a.legacy_version_file
        },
        legacy_version_file_disable_tools: if b.legacy_version_file_disable_tools.is_some() {
            b.legacy_version_file_disable_tools
        } else {
            a.legacy_version_file_disable_tools
        },
        raw: if b.raw.is_some() {
            b.raw
        } else {
            a.raw
        },
        verbose: if b.verbose.is_some() {
            b.verbose
        } else {
            a.verbose
        },
    }
}

/// What reading the process environment yields, from `acc` onward: pairs
/// are taken in order, reserved names parsed and merged (later pairs
/// win), others ignored; the first malformed reserved value fails with
/// its setting name.
pub open spec fn spec_env_fold(
    pairs: Seq<(Seq<char>, Seq<char>)>,
    acc: PartialModel,
) -> Result<PartialModel, Seq<char>>
    decreases pairs.len(),
{
    if pairs.len() == 0 {
        Result::Ok(acc)
    } else {
        match spec_env_setting_name(pairs[0].0) {
            Option::None => spec_env_fold(pairs.drop_first(), acc),
            Option::Some(name) => match spec_parse_setting(name, pairs[0].1) {
                Option::Some(p) => spec_env_fold(pairs.drop_first(), spec_merge_partial(acc, p)),
                Option::None => Result::Err(name),
            },
        }
    }
}

/// Reads the reserved settings overrides out of the process environment
/// (given as name/value pairs).  These form the highest-precedence
/// settings fragment.
pub fn settings_from_env(pairs: &Vec<(String, String)>) -> (r: Result<SettingsPartial, Error>)
    ensures
        match r {
            Result::Ok(p) => spec_env_fold(pairs.deep_view(), spec_empty_partial())
                == Result::<PartialModel, Seq<char>>::Ok(p@),
            Result::Err(e) => exists|name: Seq<char>|
                spec_env_fold(pairs.deep_view(), spec_empty_partial()) == Result::<
                    PartialModel,
                    Seq<char>,
                >::Err(name) && e@ == (ErrorModel::Parse {
                    path: "environment"@,
                    detail: "invalid value for setting "@ + name,
                }),
        },
{
    let ghost pv = pairs.deep_view();
    let mut acc = SettingsPartial::empty();
    let mut i: usize = 0;
    proof {
        assert(pv.skip(0) =~= pv);
    }
    while i < pairs.len()
        invariant
            pv == pairs.deep_view(),
            i <= pairs.len(),
            spec_env_fold(pv, spec_empty_partial()) == spec_env_fold(pv.skip(i as int), acc@),
        decreases pairs.len() - i,
    {
        let ghost oldacc = acc@;
        proof {
            assert(pv.skip(i as int)[0] == pv[i as int]);
            assert(pv.skip(i as int).drop_first() =~= pv.skip(i + 1));
        }
        let name_opt: Option<&str> = env_setting_name(pairs[i].0.as_str());
        match name_opt {
            None => {},
            Some(name) => {
                match parse_setting(name, pairs[i].1.as_str(), "environment") {
                    Ok(p) => {
                        acc = merge_partial(acc, p);
                        proof {
                            assert(acc@ == spec_merge_partial(oldacc, p@));
                        }
                    },
                    Err(e) => {
                        proof {
                            assert(spec_env_fold(pv.skip(i as int), oldacc) == Result::<
                                PartialModel,
                                Seq<char>,
                            >::Err(name@));
                        }
                        return Err(e);
                    },
                }
            },
        }
        i = i + 1;
    }
    proof {
        assert(pv.skip(pairs.len() as int).len() == 0);
    }
    Ok(acc)
}

/// Maps a reserved environment variable to its setting name.
fn env_setting_name<'a>(k: &'a str) -> (r: Option<&'a str>)
    ensures
        match r {
            Option::Some(name) => spec_env_setting_name(k@) == Option::Some(name@),
            Option::None => spec_env_setting_name(k@).is_none(),
        },
{
    if str_eq(k, "RTX_ALWAYS_KEEP_DOWNLOAD") {
        Some("always_keep_download")
    } else if str_eq(k, "RTX_DISABLE_TOOLS") {
        Some("disable_tools")
    } else if str_eq(k, "RTX_EXPERIMENTAL") {
        Some("experimental")
    } else if str_eq(k, "RTX_JOBS") {
        Some("jobs")
    } else if str_eq(k, "RTX_LEGACY_VERSION_FILE") {
        Some("legacy_version_file")
    } else if str_eq(k, "RTX_LEGACY_VERSION_FILE_DISABLE_TOOLS") {
        Some("legacy_version_file_disable_tools")
    } else if str_eq(k, "RTX_RAW") {
        Some("raw")
    } else if str_eq(k, "RTX_VERBOSE") {
        Some("verbose")
    } else {
        None
    }
}

/// Merges a later fragment over an earlier one.
pub fn merge_partial(a: SettingsPartial, b: SettingsPartial) -> (r: SettingsPartial)
    ensures
        r@ == spec_merge_partial(a@, b@),
{
    let r = SettingsPartial {
        always_keep_download: if b.always_keep_download.is_some() {
            b.always_keep_download
        } else {
            a.always_keep_download
        },
        disable_tools: if b.disable_tools.is_some() {
            b.disable_tools
        } else {
            a.disable_tools
        },
        experimental: if b.experimental.is_some() {
            b.experimental
        } else {
            a.experimental
        },
        jobs: if b.jobs.is_some() {
            b.jobs
        } else {
            a.jobs
        },
        legacy_version_file: if b.legacy_version_file.is_some() {
            b.legacy_version_file
        } else {
            a.legacy_version_file
        },
        legacy_version_file_disable_tools: if b.legacy_version_file_disable_tools.is_some() {
            b.legacy_version_file_disable_tools
        } else {
            a.legacy_version_file_disable_tools
        },
        raw: if b.raw.is_some() {
            b.raw
        } else {
            a.raw
        },
        verbose: if b.verbose.is_some() {
            b.verbose
        } else {
            a.verbose
        },
    };
    proof {
        assert(r@ =~~= spec_merge_partial(a@, b@));
    }
    r
}

} // verus!
