//! Argument parsing for the headless runner's three commands:
//! `run [--seed <u64>] [--preset <name>] [--years <u32>] [--json] [--save <path>]`,
//! `load --path <path> [--years <u32>] [--json]`, and
//! `diff --a <path> --b <path> [--json]`. Flags may come in any order and a
//! later repeat overrides an earlier one; the first malformed or unknown
//! argument ends parsing with its error message.

use vstd::prelude::*;
use crate::presets::{find_preset, names, preset_table, resolve};
use crate::text::str_eq;
use vstd::string::StrSliceExecFns;

verus! {

/// The value of an ASCII decimal digit character, if it is one.
pub open spec fn digit_value(c: char) -> Option<nat> {
    if '0' <= c && c <= '9' { Some((c as nat - '0' as nat) as nat) } else { None }
}

pub open spec fn all_digits(s: Seq<char>) -> bool {
    forall|i: int| 0 <= i < s.len() ==> #[trigger] digit_value(s[i]) is Some
}

/// The number a string of decimal digits denotes.
pub open spec fn digits_value(s: Seq<char>) -> nat
    decreases s.len(),
{
    if s.len() == 0 {
        0
    } else {
        digits_value(s.drop_last()) * 10 + digit_value(s.last()).unwrap()
    }
}

/// Unsigned decimal parsing, as Rust's `FromStr` for unsigned integers:
/// an optional leading `+`, then one or more ASCII digits, denoting a
/// value no larger than `max`.
pub open spec fn parse_unsigned(s: Seq<char>, max: nat) -> Option<nat> {
    let digits = if s.len() > 0 && s[0] == '+' { s.drop_first() } else { s };
    if digits.len() == 0 || !all_digits(digits) || digits_value(digits) > max {
        None
    } else {
        Some(digits_value(digits))
    }
}

proof fn lemma_digits_value_prefix_monotone(s: Seq<char>, j: int, k: int)
    requires
        0 <= j <= k <= s.len(),
        all_digits(s),
    ensures
        digits_value(s.take(j)) <= digits_value(s.take(k)),
    decreases k - j,
{
    if j < k {
        lemma_digits_value_prefix_monotone(s, j, k - 1);
        assert(s.take(k).drop_last() =~= s.take(k - 1));
        assert(digit_value(s[k - 1]) is Some);
    }
}

/// Parse `s` as an unsigned decimal no larger than `max`.
pub fn parse_decimal(s: &str, max: u64) -> (r: Option<u64>)
    ensures
        match parse_unsigned(s@, max as nat) {
            Some(v) => r == Some(v as u64),
            None => r is None,
        },
{
    let len = s.unicode_len();
    let mut start: usize = 0;
    if len > 0 && s.get_char(0) == '+' {
        start = 1;
    }
    let ghost digits = if s@.len() > 0 && s@[0] == '+' { s@.drop_first() } else { s@ };
    assert(digits =~= s@.subrange(start as int, s@.len() as int));
    if start == len {
        return None;
    }
    let mut value: u64 = 0;
    let mut i: usize = start;
    while i < len
        invariant
            start <= i <= len,
            len == s@.len(),
            start < len,
            digits =~= s@.subrange(start as int, len as int),
            digits == (if s@.len() > 0 && s@[0] == '+' { s@.drop_first() } else { s@ }),
            all_digits(digits.take(i - start)),
            value as nat == digits_value(digits.take(i - start)),
            value <= max,
        decreases len - i,
    {
        let c = s.get_char(i);
        assert(c == digits[i - start]);
        if !('0' <= c && c <= '9') {
            assert(digit_value(digits[i - start]) is None);
            assert(!all_digits(digits));
            return None;
        }
        let d: u64 = (c as u64) - ('0' as u64);
        assert(digits.take(i - start + 1).drop_last() =~= digits.take(i - start));
        assert(digits_value(digits.take(i - start + 1)) == value * 10 + d);
        let next = match value.checked_mul(10) {
            Some(v) => v.checked_add(d),
            None => None,
        };
        match next {
            Some(v) if v <= max => {
                value = v;
            },
            _ => {
                proof {
                    assert forall|j: int| 0 <= j < i - start + 1 implies #[trigger] digit_value(digits.take(i - start + 1)[j]) is Some by {
                        if j < i - start {
                            assert(digits.take(i - start + 1)[j] == digits.take(i - start)[j]);
                        }
                    }
                    if all_digits(digits) {
                        lemma_digits_value_prefix_monotone(digits, i - start + 1, digits.len() as int);
                        assert(digits.take(digits.len() as int) =~= digits);
                    }
                }
                return None;
            },
        }
        proof {
            assert forall|j: int| 0 <= j < i - start + 1 implies #[trigger] digit_value(digits.take(i - start + 1)[j]) is Some by {
                if j < i - start {
                    assert(digits.take(i - start + 1)[j] == digits.take(i - start)[j]);
                }
            }
        }
        i += 1;
    }
    assert(digits.take(len - start) =~= digits);
    Some(value)
}

/// The options of `run`: the world seed and how many star systems to
/// generate (both set together by a named preset), how many years to run,
/// whether to print the full state as JSON, and where to save the state
/// afterwards, if anywhere.
#[derive(Debug, Clone, PartialEq, Eq)]
pub struct Args {
    pub seed: u64,
    pub years: u32,
    pub json: bool,
    pub system_count: u32,
    pub save_path: Option<String>,
}

/// The options of `run` as plain values.
pub struct ArgsModel {
    pub seed: u64,
    pub years: u32,
    pub json: bool,
    pub system_count: u32,
    pub save_path: Option<Seq<char>>,
}

pub open spec fn path_model(p: Option<String>) -> Option<Seq<char>> {
    match p {
        Some(s) => Some(s@),
        None => None,
    }
}

impl Args {
    pub open spec fn model(self) -> ArgsModel {
        ArgsModel {
            seed: self.seed,
            years: self.years,
            json: self.json,
            system_count: self.system_count,
            save_path: path_model(self.save_path),
        }
    }
}

pub const DEFAULT_SEED: u64 = 42;
pub const DEFAULT_YEARS: u32 = 1;
pub const DEFAULT_SYSTEM_COUNT: u32 = 3;

/// The first `k` preset names, separated by commas.
pub open spec fn preset_names_joined(k: int) -> Seq<char>
    decreases k,
{
    if k <= 0 {
        Seq::empty()
    } else if k == 1 {
        preset_table()[0].name@
    } else {
        preset_names_joined(k - 1) + ", "@ + preset_table()[k - 1].name@
    }
}

/// The error for a preset name not in the table: it lists every name.
pub open spec fn unknown_preset_message(name: Seq<char>) -> Seq<char> {
    "unknown preset: "@ + name + " (expected one of: "@ + preset_names_joined(preset_table().len() as int) + ")"@
}

fn unknown_preset(name: &str) -> (message: String)
    ensures
        message@ == unknown_preset_message(name@),
{
    let listed = names();
    let mut message = String::from_str("unknown preset: ");
    message.append(name);
    message.append(" (expected one of: ");
    let ghost prefix = message@;
    let mut k: usize = 0;
    while k < listed.len()
        invariant
            k <= listed@.len(),
            listed@.len() == preset_table().len(),
            forall|i: int| 0 <= i < listed@.len() ==> listed@[i] == preset_table()[i].name,
            message@ == prefix + preset_names_joined(k as int),
        decreases listed@.len() - k,
    {
        if k > 0 {
            message.append(", ");
        }
        message.append(listed[k]);
        proof {
            if k == 0 {
                assert(prefix + preset_names_joined(0) =~= prefix);
            }
            assert(message@ =~= prefix + preset_names_joined(k as int + 1));
        }
        k += 1;
    }
    message.append(")");
    message
}

/// The message for an unknown argument.
pub open spec fn unrecognized_message(arg: Seq<char>) -> Seq<char> {
    "unrecognized argument: "@ + arg
}

fn unrecognized(arg: &str) -> (message: String)
    ensures
        message@ == unrecognized_message(arg@),
{
    let mut message = String::from_str("unrecognized argument: ");
    message.append(arg);
    message
}

/// The outcome of parsing `run`'s flags from position `i`, with the options
/// `m` read so far.
pub open spec fn parse_args_from(raw: Seq<Seq<char>>, i: int, m: ArgsModel) -> Result<ArgsModel, Seq<char>>
    decreases raw.len() - i,
{
    if i < 0 || i >= raw.len() {
        Ok(m)
    } else if raw[i] == "--preset"@ {
        if i + 1 >= raw.len() {
            Err("--preset requires a name"@)
        } else {
            match find_preset(raw[i + 1], 0) {
                None => Err(unknown_preset_message(raw[i + 1])),
                Some(p) => parse_args_from(raw, i + 2, ArgsModel { seed: p.seed, system_count: p.system_count, ..m }),
            }
        }
    } else if raw[i] == "--seed"@ {
        if i + 1 >= raw.len() {
            Err("--seed requires a value"@)
        } else {
            match parse_unsigned(raw[i + 1], u64::MAX as nat) {
                None => Err("--seed must be a u64"@),
                Some(v) => parse_args_from(raw, i + 2, ArgsModel { seed: v as u64, ..m }),
            }
        }
    } else if raw[i] == "--years"@ {
        if i + 1 >= raw.len() {
            Err("--years requires a value"@)
        } else {
            match parse_unsigned(raw[i + 1], u32::MAX as nat) {
                None => Err("--years must be a u32"@),
                Some(v) => parse_args_from(raw, i + 2, ArgsModel { years: v as u32, ..m }),
            }
        }
    } else if raw[i] == "--json"@ {
        parse_args_from(raw, i + 1, ArgsModel { json: true, ..m })
    } else if raw[i] == "--save"@ {
        if i + 1 >= raw.len() {
            Err("--save requires a path"@)
        } else {
            parse_args_from(raw, i + 2, ArgsModel { save_path: Some(raw[i + 1]), ..m })
        }
    } else {
        Err(unrecognized_message(raw[i]))
    }
}

pub open spec fn strings_view(raw: Seq<String>) -> Seq<Seq<char>> {
    raw.map_values(|s: String| s@)
}

/// `run`'s options before any flag: seed 42, three systems, one year, text
/// output, no save.
pub open spec fn default_args() -> ArgsModel {
    ArgsModel {
        seed: DEFAULT_SEED,
        years: DEFAULT_YEARS,
        json: false,
        system_count: DEFAULT_SYSTEM_COUNT,
        save_path: None,
    }
}

/// Parse `run`'s flags (everything after `run`). A preset sets the seed
/// and the system count together.
pub fn parse_args(raw: &[String]) -> (r: Result<Args, String>)
    ensures
        match parse_args_from(strings_view(raw@), 0, default_args()) {
            Ok(a) => r matches Ok(args) && args.model() == a,
            Err(m) => r matches Err(e) && e@ == m,
        },
{
    let ghost rv = strings_view(raw@);
    let mut seed: u64 = DEFAULT_SEED;
    let mut years: u32 = DEFAULT_YEARS;
    let mut json = false;
    let mut system_count: u32 = DEFAULT_SYSTEM_COUNT;
    let mut save_path: Option<String> = None;
    let mut i: usize = 0;
    while i < raw.len()
        invariant
            i <= raw@.len() + 1,
            rv == strings_view(raw@),
            parse_args_from(rv, 0, default_args()) == parse_args_from(
                rv,
                i as int,
                ArgsModel { seed, years, json, system_count, save_path: path_model(save_path) },
            ),
        decreases raw@.len() - i,
    {
        let arg = raw[i].as_str();
        assert(arg@ == rv[i as int]);
        if str_eq(arg, "--preset") {
            if i + 1 >= raw.len() {
                return Err(String::from_str("--preset requires a name"));
            }
            assert(raw[i + 1]@ == rv[i + 1]);
            match resolve(raw[i + 1].as_str()) {
                None => {
                    return Err(unknown_preset(raw[i + 1].as_str()));
                },
                Some(p) => {
                    seed = p.seed;
                    system_count = p.system_count;
                },
            }
            i += 2;
        } else if str_eq(arg, "--seed") {
            if i + 1 >= raw.len() {
                return Err(String::from_str("--seed requires a value"));
            }
            assert(raw[i + 1]@ == rv[i + 1]);
            match parse_decimal(raw[i + 1].as_str(), u64::MAX) {
                None => {
                    return Err(String::from_str("--seed must be a u64"));
                },
                Some(v) => {
                    seed = v;
                },
            }
            i += 2;
        } else if str_eq(arg, "--years") {
            if i + 1 >= raw.len() {
                return Err(String::from_str("--years requires a value"));
            }
            assert(raw[i + 1]@ == rv[i + 1]);
            match parse_decimal(raw[i + 1].as_str(), u32::MAX as u64) {
                None => {
                    return Err(String::from_str("--years must be a u32"));
                },
                Some(v) => {
                    years = v as u32;
                },
            }
            i += 2;
        } else if str_eq(arg, "--json") {
            json = true;
            i += 1;
        } else if str_eq(arg, "--save") {
            if i + 1 >= raw.len() {
                return Err(String::from_str("--save requires a path"));
            }
            assert(raw[i + 1]@ == rv[i + 1]);
            save_path = Some(raw[i + 1].clone());
            i += 2;
        } else {
            return Err(unrecognized(arg));
        }
    }
    Ok(Args { seed, years, json, system_count, save_path })
}

/// The options of `load`: the save to resume, how many years to run it
/// further, and whether to print the full state as JSON.
#[derive(Debug, Clone, PartialEq, Eq)]
pub struct LoadArgs {
    pub path: String,
    pub years: u32,
    pub json: bool,
}

/// The outcome of parsing `load`'s flags from position `i`, with the
/// options read so far; the save's path is required.
pub open spec fn parse_load_from(raw: Seq<Seq<char>>, i: int, path: Option<Seq<char>>, years: u32, json: bool) -> Result<(Seq<char>, u32, bool), Seq<char>>
    decreases raw.len() - i,
{
    if i < 0 || i >= raw.len() {
        match path {
            Some(p) => Ok((p, years, json)),
            None => Err("--path is required"@),
        }
    } else if raw[i] == "--path"@ {
        if i + 1 >= raw.len() {
            Err("--path requires a value"@)
        } else {
            parse_load_from(raw, i + 2, Some(raw[i + 1]), years, json)
        }
    } else if raw[i] == "--years"@ {
        if i + 1 >= raw.len() {
            Err("--years requires a value"@)
        } else {
            match parse_unsigned(raw[i + 1], u32::MAX as nat) {
                None => Err("--years must be a u32"@),
                Some(v) => parse_load_from(raw, i + 2, path, v as u32, json),
            }
        }
    } else if raw[i] == "--json"@ {
        parse_load_from(raw, i + 1, path, years, true)
    } else {
        Err(unrecognized_message(raw[i]))
    }
}

/// Parse `load`'s flags (everything after `load`): one year and text output
/// unless given.
pub fn parse_load_args(raw: &[String]) -> (r: Result<LoadArgs, String>)
    ensures
        match parse_load_from(strings_view(raw@), 0, None, DEFAULT_YEARS, false) {
            Ok((p, y, j)) => r matches Ok(args) && args.path@ == p && args.years == y && args.json == j,
            Err(m) => r matches Err(e) && e@ == m,
        },
{
    let ghost rv = strings_view(raw@);
    let mut path: Option<String> = None;
    let mut years: u32 = DEFAULT_YEARS;
    let mut json = false;
    let mut i: usize = 0;
    while i < raw.len()
        invariant
            i <= raw@.len() + 1,
            rv == strings_view(raw@),
            parse_load_from(rv, 0, None, DEFAULT_YEARS, false) == parse_load_from(rv, i as int, path_model(path), years, json),
        decreases raw@.len() - i,
    {
        let arg = raw[i].as_str();
        assert(arg@ == rv[i as int]);
        if str_eq(arg, "--path") {
            if i + 1 >= raw.len() {
                return Err(String::from_str("--path requires a value"));
            }
            assert(raw[i + 1]@ == rv[i + 1]);
            path = Some(raw[i + 1].clone());
            i += 2;
        } else if str_eq(arg, "--years") {
            if i + 1 >= raw.len() {
                return Err(String::from_str("--years requires a value"));
            }
            assert(raw[i + 1]@ == rv[i + 1]);
            match parse_decimal(raw[i + 1].as_str(), u32::MAX as u64) {
                None => {
                    return Err(String::from_str("--years must be a u32"));
                },
                Some(v) => {
                    years = v as u32;
                },
            }
            i += 2;
        } else if str_eq(arg, "--json") {
            json = true;
            i += 1;
        } else {
            return Err(unrecognized(arg));
        }
    }
    match path {
        Some(path) => Ok(LoadArgs { path, years, json }),
        None => Err(String::from_str("--path is required")),
    }
}

/// The options of `diff`: the two documents to compare, and whether to
/// print the differences as JSON.
#[derive(Debug, Clone, PartialEq, Eq)]
pub struct DiffArgs {
    pub a: String,
    pub b: String,
    pub json: bool,
}

/// The outcome of parsing `diff`'s flags from position `i`, with the
/// options read so far; both documents are required.
pub open spec fn parse_diff_from(raw: Seq<Seq<char>>, i: int, a: Option<Seq<char>>, b: Option<Seq<char>>, json: bool) -> Result<(Seq<char>, Seq<char>, bool), Seq<char>>
    decreases raw.len() - i,
{
    if i < 0 || i >= raw.len() {
        match (a, b) {
            (Some(pa), Some(pb)) => Ok((pa, pb, json)),
            (None, _) => Err("--a is required"@),
            (_, None) => Err("--b is required"@),
        }
    } else if raw[i] == "--a"@ {
        if i + 1 >= raw.len() {
            Err("--a requires a path"@)
        } else {
            parse_diff_from(raw, i + 2, Some(raw[i + 1]), b, json)
        }
    } else if raw[i] == "--b"@ {
        if i + 1 >= raw.len() {
            Err("--b requires a path"@)
        } else {
            parse_diff_from(raw, i + 2, a, Some(raw[i + 1]), json)
        }
    } else if raw[i] == "--json"@ {
        parse_diff_from(raw, i + 1, a, b, true)
    } else {
        Err(unrecognized_message(raw[i]))
    }
}

/// Parse `diff`'s flags (everything after `diff`).
pub fn parse_diff_args(raw: &[String]) -> (r: Result<DiffArgs, String>)
    ensures
        match parse_diff_from(strings_view(raw@), 0, None, None, false) {
            Ok((pa, pb, j)) => r matches Ok(args) && args.a@ == pa && args.b@ == pb && args.json == j,
            Err(m) => r matches Err(e) && e@ == m,
        },
{
    let ghost rv = strings_view(raw@);
    let mut a: Option<String> = None;
    let mut b: Option<String> = None;
    let mut json = false;
    let mut i: usize = 0;
    while i < raw.len()
        invariant
            i <= raw@.len() + 1,
            rv == strings_view(raw@),
            parse_diff_from(rv, 0, None, None, false) == parse_diff_from(rv, i as int, path_model(a), path_model(b), json),
        decreases raw@.len() - i,
    {
        let arg = raw[i].as_str();
        assert(arg@ == rv[i as int]);
        if str_eq(arg, "--a") {
            if i + 1 >= raw.len() {
                return Err(String::from_str("--a requires a path"));
            }
            assert(raw[i + 1]@ == rv[i + 1]);
            a = Some(raw[i + 1].clone());
            i += 2;
        } else if str_eq(arg, "--b") {
            if i + 1 >= raw.len() {
                return Err(String::from_str("--b requires a path"));
            }
            assert(raw[i + 1]@ == rv[i + 1]);
            b = Some(raw[i + 1].clone());
            i += 2;
        } else if str_eq(arg, "--json") {
            json = true;
            i += 1;
        } else {
            return Err(unrecognized(arg));
        }
    }
    match (a, b) {
        (Some(a), Some(b)) => Ok(DiffArgs { a, b, json }),
        (None, _) => Err(String::from_str("--a is required")),
        (_, None) => Err(String::from_str("--b is required")),
    }
}

} // verus!
