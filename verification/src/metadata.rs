//! The fetched contract metadata, modeled as plain values: the contract
//! name, the compiler version string, the source bundle, the compiler
//! settings, and the constructor arguments.  Validation of a fetch and
//! parsing of the version string live here.

use vstd::prelude::*;
use vstd::string::*;
use crate::errors::CloneError;
use crate::remapping::Remapping;
use crate::source_tree::SourceTree;
use crate::pathseg::starts_with;

verus! {

/// Yul optimizer tuning, as far as the explorer reports it.
#[derive(Debug)]
pub struct YulDetailsModel {
    pub stack_allocation: Option<bool>,
    pub optimizer_steps: Option<String>,
}

/// Optimizer component switches, each independently present or absent.
#[derive(Debug)]
pub struct OptimizerDetailsModel {
    pub peephole: Option<bool>,
    pub inliner: Option<bool>,
    pub jumpdest_remover: Option<bool>,
    pub order_literals: Option<bool>,
    pub deduplicate: Option<bool>,
    pub cse: Option<bool>,
    pub constant_optimizer: Option<bool>,
    pub simple_counter_for_loop_unchecked_increment: Option<bool>,
    pub yul: Option<bool>,
    pub yul_details: Option<YulDetailsModel>,
}

/// The optimizer block of the reported settings.
#[derive(Debug)]
pub struct OptimizerModel {
    pub enabled: Option<bool>,
    pub runs: Option<u64>,
    pub details: Option<OptimizerDetailsModel>,
}

/// The bytecode-metadata knobs of the reported settings.
#[derive(Debug)]
pub struct MetadataSettingsModel {
    pub use_literal_content: Option<bool>,
    pub bytecode_hash: Option<String>,
    pub cbor_metadata: Option<bool>,
}

/// One library address binding: the declaring file, the library name and
/// its on-chain address.
#[derive(Debug)]
pub struct LibraryBinding {
    /// The declaring source file, as path segments.
    pub path: Vec<String>,
    /// The library's name.
    pub name: String,
    /// The library's address, as the explorer reports it.
    pub address: String,
}

/// The compiler-settings object the explorer reports, every field
/// independently present or absent.
#[derive(Debug)]
pub struct SettingsModel {
    /// The phase to stop compilation after; must be absent.
    pub stop_after: Option<String>,
    /// Remappings the metadata declares.
    pub remappings: Vec<Remapping>,
    /// Optimizer flags.
    pub optimizer: OptimizerModel,
    /// Bytecode-metadata knobs.
    pub metadata: Option<MetadataSettingsModel>,
    /// The EVM target version, as reported (possibly `default`).
    pub evm_version: Option<String>,
    /// Whether compilation goes through the Yul pipeline.
    pub via_ir: Option<bool>,
    /// Library address bindings.
    pub libraries: Vec<LibraryBinding>,
}

/// One fetched contract: everything the pipeline reads of it.
#[derive(Debug)]
pub struct ContractMetadataModel {
    /// The target contract's name.
    pub contract_name: String,
    /// The compiler version string, as reported (e.g. `v0.8.20+commit.a1b2c3`).
    pub compiler_version: String,
    /// The constructor argument bytes.
    pub constructor_arguments: Vec<u8>,
    /// The fetched source bundle.
    pub sources: SourceTree,
    /// The reported compiler settings.
    pub settings: SettingsModel,
}

/// Whether a version string names the unsupported dialect.
pub open spec fn is_vyper(v: Seq<char>) -> bool {
    v.len() >= 5 && v.subrange(0, 5) == "vyper"@
}

/// Validates a fetch: it must resolve to exactly one contract entry, and
/// that entry must not be written for the unsupported dialect.  Returns
/// the single entry on success; fails with `MetadataNotSingle` exactly
/// when the count is not one, and with `VyperNotSupported` exactly when
/// the single entry's version string names the unsupported dialect.
pub fn select_single_metadata(items: Vec<ContractMetadataModel>) -> (r: Result<
    ContractMetadataModel,
    CloneError,
>)
    ensures
        (r is Ok) == (items@.len() == 1 && !is_vyper(items@[0].compiler_version@)),
        r is Ok ==> r->Ok_0 == items@[0],
        items@.len() != 1 ==> r == Err::<ContractMetadataModel, CloneError>(
            CloneError::MetadataNotSingle,
        ),
        items@.len() == 1 && is_vyper(items@[0].compiler_version@) ==> r == Err::<
            ContractMetadataModel,
            CloneError,
        >(CloneError::VyperNotSupported),
{
    let mut items = items;
    if items.len() != 1 {
        return Err(CloneError::MetadataNotSingle);
    }
    let m = items.pop().unwrap();
    proof {
        reveal_strlit("vyper");
    }
    if starts_with(m.compiler_version.as_str(), "vyper") {
        return Err(CloneError::VyperNotSupported);
    }
    Ok(m)
}

/// Whether a character is an ASCII digit.
pub open spec fn is_digit(c: char) -> bool {
    48 <= c as u32 <= 57
}

/// The number an ASCII digit run denotes.
pub open spec fn digits_val(s: Seq<char>) -> int
    decreases s.len(),
{
    if s.len() == 0 {
        0
    } else {
        digits_val(s.drop_last()) * 10 + (s.last() as u32 - 48)
    }
}

/// The first position at or after `i` that does not hold a digit.
pub open spec fn scan_digits(s: Seq<char>, i: int) -> int
    decreases s.len() - i,
{
    if i < 0 || i >= s.len() || !is_digit(s[i]) {
        i
    } else {
        scan_digits(s, i + 1)
    }
}

/// The version string with its optional leading `v` removed.
pub open spec fn version_core(s: Seq<char>) -> Seq<char> {
    if s.len() > 0 && s[0] == 'v' {
        s.drop_first()
    } else {
        s
    }
}

/// The parsed `major.minor.patch` triple of a version string: after the
/// optional leading `v`, three nonempty digit runs separated by `.`,
/// followed by nothing or by a `+` or `-` suffix.
pub open spec fn version_parse(s: Seq<char>) -> Option<(int, int, int)> {
    let t = version_core(s);
    let e1 = scan_digits(t, 0);
    let s2 = e1 + 1;
    let e2 = scan_digits(t, s2);
    let s3 = e2 + 1;
    let e3 = scan_digits(t, s3);
    if e1 == 0 {
        None
    } else if !(e1 < t.len() && t[e1] == '.') {
        None
    } else if e2 == s2 {
        None
    } else if !(e2 < t.len() && t[e2] == '.') {
        None
    } else if e3 == s3 {
        None
    } else if e3 < t.len() && t[e3] != '+' && t[e3] != '-' {
        None
    } else {
        Some(
            (
                digits_val(t.subrange(0, e1)),
                digits_val(t.subrange(s2, e2)),
                digits_val(t.subrange(s3, e3)),
            ),
        )
    }
}

/// Whether each digit run of the version is at most 18 digits long, so
/// that its value fits the machine word the parser returns.
pub open spec fn version_runs_short(s: Seq<char>) -> bool {
    let t = version_core(s);
    let e1 = scan_digits(t, 0);
    let e2 = scan_digits(t, e1 + 1);
    let e3 = scan_digits(t, e2 + 1);
    e1 <= 18 && e2 - (e1 + 1) <= 18 && e3 - (e2 + 1) <= 18
}

/// `scan_digits` is the least non-digit position at or after `start`.
proof fn lemma_scan_characterize(s: Seq<char>, start: int, i: int)
    requires
        0 <= start <= i <= s.len(),
        forall|j: int| start <= j < i ==> is_digit(#[trigger] s[j]),
        i == s.len() || !is_digit(s[i]),
    ensures
        scan_digits(s, start) == i,
    decreases i - start,
{
    if start < i {
        lemma_scan_characterize(s, start + 1, i);
    }
}

/// Ten to the `n`.
pub open spec fn pow10(n: int) -> int
    decreases n,
{
    if n <= 0 {
        1
    } else {
        pow10(n - 1) * 10
    }
}

/// A digit run's value lies under ten to its length.
proof fn lemma_digits_pow(n: int)
    ensures
        n >= 0 ==> pow10(n) >= 1,
    decreases n,
{
    if n > 0 {
        lemma_digits_pow(n - 1);
    }
}

/// `pow10` grows with its argument.
proof fn lemma_pow10_mono(a: int, b: int)
    requires
        a <= b,
    ensures
        pow10(a) <= pow10(b),
    decreases b - a,
{
    if a < b {
        lemma_pow10_mono(a, b - 1);
        lemma_digits_pow(b - 1);
    }
}

/// Helper: the value of one more digit.
proof fn lemma_digits_step(t: Seq<char>, start: int, i: int)
    requires
        0 <= start <= i < t.len(),
    ensures
        t.subrange(start, i + 1).drop_last() == t.subrange(start, i),
        t.subrange(start, i + 1).last() == t[i],
{
    assert(t.subrange(start, i + 1).drop_last() =~= t.subrange(start, i));
}

/// Whether position `i` of `s` holds an ASCII digit.
fn digit_at(s: &str, i: usize) -> (r: bool)
    requires
        i < s@.len(),
    ensures
        r == is_digit(s@[i as int]),
{
    let c = s.get_char(i) as u32;
    48 <= c && c <= 57
}

/// Parses one digit run beginning at `start`, returning its value and
/// its end position.
#[verifier::loop_isolation(false)]
fn parse_run(s: &str, start: usize) -> (r: (u64, usize, bool))
    requires
        start <= s@.len(),
        s@.len() < usize::MAX,
    ensures
        r.2 ==> ({
            let e = scan_digits(s@, start as int);
            &&& r.1 == e
            &&& start < e
            &&& e - start <= 18
            &&& r.0 == digits_val(s@.subrange(start as int, e))
            &&& r.1 <= s@.len()
        }),
        !r.2 ==> (scan_digits(s@, start as int) == start || scan_digits(s@, start as int) - start
            > 18),
{
    let n = s.unicode_len();
    // First find where the run ends.
    let mut i = start;
    while i < n && digit_at(s, i)
        invariant
            start <= i <= n,
            forall|j: int| start <= j < i ==> is_digit(#[trigger] s@[j]),
        decreases n - i,
    {
        i = i + 1;
    }
    proof {
        lemma_scan_characterize(s@, start as int, i as int);
    }
    let e = i;
    if e == start {
        return (0, e, false);
    }
    if e - start > 18 {
        return (0, e, false);
    }
    // Then accumulate its value; the bound on its length keeps the
    // arithmetic in range.
    let mut val: u64 = 0;
    let mut i = start;
    proof {
        assert(s@.subrange(start as int, start as int) =~= Seq::<char>::empty());
    }
    while i < e
        invariant
            start <= i <= e,
            val == digits_val(s@.subrange(start as int, i as int)),
        decreases e - i,
    {
        let d = (s.get_char(i) as u32 - 48) as u64;
        proof {
            lemma_digits_step(s@, start as int, i as int);
            assert(forall|j: int|
                0 <= j < s@.subrange(start as int, i as int).len() ==> is_digit(
                    #[trigger] s@.subrange(start as int, i as int)[j],
                ));
            lemma_digits_pow_val(s@.subrange(start as int, i as int));
            lemma_pow10_mono(i - start, 17);
            reveal_with_fuel(pow10, 19);
            assert(pow10(17) == 100_000_000_000_000_000);
            assert(val < 100_000_000_000_000_000);
        }
        val = val * 10 + d;
        i = i + 1;
        proof {
            assert(val == digits_val(s@.subrange(start as int, i as int)));
        }
    }
    (val, e, true)
}

/// The value of a digit run lies under ten to its length.
proof fn lemma_digits_pow_val(s: Seq<char>)
    requires
        forall|j: int| 0 <= j < s.len() ==> is_digit(#[trigger] s[j]),
    ensures
        0 <= digits_val(s) < pow10(s.len() as int),
    decreases s.len(),
{
    if s.len() > 0 {
        assert(forall|j: int|
            0 <= j < s.drop_last().len() ==> is_digit(#[trigger] s.drop_last()[j]));
        lemma_digits_pow_val(s.drop_last());
    }
}

/// Parses the reported compiler version into its `major.minor.patch`
/// triple.  Succeeds exactly on strings of the documented shape whose
/// digit runs are at most 18 digits long; the returned numbers are the
/// runs' values.
#[verifier::loop_isolation(false)]
pub fn parse_compiler_version(s: &str) -> (r: Result<(u64, u64, u64), CloneError>)
    requires
        s@.len() < usize::MAX - 1,
    ensures
        (r is Ok) == (version_parse(s@) is Some && version_runs_short(s@)),
        r matches Ok(v) ==> version_parse(s@) == Some(
            ((v.0 as int, v.1 as int, v.2 as int)),
        ),
        r is Err ==> r->Err_0 == CloneError::BadCompilerVersion,
{
    let n = s.unicode_len();
    let mut pos: usize = 0;
    if n > 0 && s.get_char(0) == 'v' {
        pos = 1;
    }
    let ghost t = version_core(s@);
    proof {
        if pos == 1 {
            assert(t =~= s@.drop_first());
        } else {
            assert(t == s@);
        }
        assert(forall|j: int| 0 <= j < t.len() ==> t[j] == s@[j + pos]);
        lemma_scan_shift(s@, t, pos as int, 0);
    }

    let (major, e1, ok1) = parse_run(s, pos);
    proof {
        lemma_scan_shift(s@, t, pos as int, 0);
    }
    if !ok1 {
        return Err(CloneError::BadCompilerVersion);
    }
    if e1 >= n || s.get_char(e1) != '.' {
        return Err(CloneError::BadCompilerVersion);
    }
    let (minor, e2, ok2) = parse_run(s, e1 + 1);
    proof {
        lemma_scan_shift(s@, t, pos as int, e1 + 1 - pos);
    }
    if !ok2 {
        return Err(CloneError::BadCompilerVersion);
    }
    if e2 >= n || s.get_char(e2) != '.' {
        return Err(CloneError::BadCompilerVersion);
    }
    let (patch, e3, ok3) = parse_run(s, e2 + 1);
    proof {
        lemma_scan_shift(s@, t, pos as int, e2 + 1 - pos);
    }
    if !ok3 {
        return Err(CloneError::BadCompilerVersion);
    }
    if e3 < n {
        let c = s.get_char(e3);
        if c != '+' && c != '-' {
            return Err(CloneError::BadCompilerVersion);
        }
    }
    proof {
        assert(s@.subrange(pos as int, e1 as int) =~= t.subrange(0, e1 - pos));
        assert(s@.subrange(e1 + 1, e2 as int) =~= t.subrange(e1 + 1 - pos, e2 - pos));
        assert(s@.subrange(e2 + 1, e3 as int) =~= t.subrange(e2 + 1 - pos, e3 - pos));
    }
    Ok((major, minor, patch))
}

/// Scanning for digits commutes with dropping the leading `v`: position
/// `i` of the stripped string is position `i + off` of the original.
proof fn lemma_scan_shift(s: Seq<char>, t: Seq<char>, off: int, i: int)
    requires
        0 <= off,
        0 <= i,
        t.len() + off == s.len(),
        forall|j: int| 0 <= j < t.len() ==> t[j] == s[j + off],
        i <= t.len(),
    ensures
        scan_digits(t, i) + off == scan_digits(s, i + off),
    decreases t.len() - i,
{
    if i < t.len() && is_digit(t[i]) {
        lemma_scan_shift(s, t, off, i + 1);
    }
}


/// The character of one decimal digit.
pub open spec fn digit_char(d: int) -> char {
    if d == 0 {
        '0'
    } else if d == 1 {
        '1'
    } else if d == 2 {
        '2'
    } else if d == 3 {
        '3'
    } else if d == 4 {
        '4'
    } else if d == 5 {
        '5'
    } else if d == 6 {
        '6'
    } else if d == 7 {
        '7'
    } else if d == 8 {
        '8'
    } else {
        '9'
    }
}

/// The decimal rendering of a nonnegative number.
pub open spec fn dec_str(n: int) -> Seq<char>
    decreases n,
{
    if n < 10 {
        seq![digit_char(n)]
    } else {
        dec_str(n / 10).push(digit_char(n % 10))
    }
}

/// The literal of one decimal digit.
fn digit_str(d: u64) -> (r: &'static str)
    requires
        d < 10,
    ensures
        r@ == seq![digit_char(d as int)],
{
    if d == 0 {
        proof {
            reveal_strlit("0");
            assert("0"@ =~= seq!['0']);
        }
        "0"
    } else if d == 1 {
        proof {
            reveal_strlit("1");
            assert("1"@ =~= seq!['1']);
        }
        "1"
    } else if d == 2 {
        proof {
            reveal_strlit("2");
            assert("2"@ =~= seq!['2']);
        }
        "2"
    } else if d == 3 {
        proof {
            reveal_strlit("3");
            assert("3"@ =~= seq!['3']);
        }
        "3"
    } else if d == 4 {
        proof {
            reveal_strlit("4");
            assert("4"@ =~= seq!['4']);
        }
        "4"
    } else if d == 5 {
        proof {
            reveal_strlit("5");
            assert("5"@ =~= seq!['5']);
        }
        "5"
    } else if d == 6 {
        proof {
            reveal_strlit("6");
            assert("6"@ =~= seq!['6']);
        }
        "6"
    } else if d == 7 {
        proof {
            reveal_strlit("7");
            assert("7"@ =~= seq!['7']);
        }
        "7"
    } else if d == 8 {
        proof {
            reveal_strlit("8");
            assert("8"@ =~= seq!['8']);
        }
        "8"
    } else {
        proof {
            reveal_strlit("9");
            assert("9"@ =~= seq!['9']);
        }
        "9"
    }
}

/// Renders a number in decimal.
pub fn u64_to_string(n: u64) -> (r: String)
    ensures
        r@ == dec_str(n as int),
    decreases n,
{
    if n < 10 {
        digit_str(n).to_owned()
    } else {
        let mut s = u64_to_string(n / 10);
        s.append(digit_str(n % 10));
        s
    }
}

/// Renders `major.minor.patch`.
pub fn version_string(major: u64, minor: u64, patch: u64) -> (r: String)
    ensures
        r@ == dec_str(major as int) + seq!['.'] + dec_str(minor as int) + seq!['.'] + dec_str(
            patch as int,
        ),
{
    let mut s = u64_to_string(major);
    proof {
        reveal_strlit(".");
        assert("."@ =~= seq!['.']);
    }
    s.append(".");
    let m = u64_to_string(minor);
    s.append(m.as_str());
    s.append(".");
    let q = u64_to_string(patch);
    s.append(q.as_str());
    proof {
        assert(s@ =~= dec_str(major as int) + seq!['.'] + dec_str(minor as int) + seq!['.']
            + dec_str(patch as int));
    }
    s
}

} // verus!
