//! Configuration values and the reading of size texts.

use vstd::prelude::*;

use crate::text::{chars_of, starts_with, string_of, trim, trim_chars};

verus! {

/// Storage variants that a configuration can name.
#[derive(Debug, Clone, Copy, PartialEq, Eq, Structural)]
pub enum Backend {
    FILESYSTEM,
    SQLITE,
    LEVELDB,
    REDIS,
}

#[derive(Debug)]
pub struct BackupConfig {
    pub enabled: bool,
    pub interval: u64,
    pub retention: u64,
    pub path: String,
    pub compression: String,
}

#[derive(Debug)]
pub struct PersistenceConfig {
    pub backend: Backend,
    /// Directory of a file store, or database file of a table store.
    pub path: String,
    pub flush_interval: u64,
    pub compression: String,
    pub backup: BackupConfig,
}

#[derive(Debug)]
pub struct LimitsConfig {
    pub max_rooms: usize,
    pub max_room_memory: u64,
    pub max_input_size: usize,
    pub max_output_size: usize,
    pub entity_timeout: u64,
    pub input_queue_depth: usize,
    pub memory_entries_max: usize,
}

#[derive(Debug)]
pub struct LoggingConfig {
    pub level: String,
    pub format: String,
    pub output: String,
}

#[derive(Debug)]
pub struct DaemonConfig {
    pub enabled: bool,
    pub bind: String,
    pub workers: usize,
    pub max_connections: usize,
    pub connection_timeout: u64,
}

/// Why a size text was not accepted.
#[derive(Debug, Clone, Copy, PartialEq, Eq, Structural)]
pub enum SizeError {
    /// No digits, or more than a `u64` holds.
    InvalidNumber,
    /// A suffix other than K, KB, M, MB, G, GB or none.
    InvalidUnit,
    /// The number times its unit is more than a `u64` holds.
    TooLarge,
}

/// Relies on `str::to_uppercase`: the result depends on the characters alone,
/// and an empty text stays empty.
pub uninterp spec fn upper_of(s: Seq<char>) -> Seq<char>;

/// Relies on `str::to_uppercase` for Unicode upper case.
#[verifier::external_body]
fn uppercase(s: &str) -> (r: String)
    ensures
        r@ == upper_of(s@),
        s@.len() == 0 ==> r@.len() == 0,
{
    s.to_uppercase()
}

pub open spec fn is_digit(c: char) -> bool {
    '0' <= c && c <= '9'
}

/// Number of ASCII digits at the start of `s`.
pub open spec fn digit_run(s: Seq<char>) -> nat
    decreases s.len(),
{
    if s.len() > 0 && is_digit(s[0]) {
        1 + digit_run(s.drop_first())
    } else {
        0
    }
}

/// The number that the ASCII digits `d` spell.
pub open spec fn digits_value(d: Seq<char>) -> nat
    decreases d.len(),
{
    if d.len() == 0 {
        0
    } else {
        digits_value(d.drop_last()) * 10 + (d.last() as nat - '0' as nat) as nat
    }
}

pub const KIB: u64 = 1024;

pub const MIB: u64 = 1048576;

pub const GIB: u64 = 1073741824;

/// Bytes per unit of a size suffix.
pub open spec fn unit_multiplier(unit: Seq<char>) -> Option<u64> {
    if unit == "K"@ || unit == "KB"@ {
        Some(KIB)
    } else if unit == "M"@ || unit == "MB"@ {
        Some(MIB)
    } else if unit == "G"@ || unit == "GB"@ {
        Some(GIB)
    } else if unit.len() == 0 {
        Some(1)
    } else {
        None
    }
}

/// The size, in bytes, that an upper-case size text such as `512M` names.
pub open spec fn size_value(t: Seq<char>) -> Result<u64, SizeError> {
    let k = digit_run(t) as int;
    let n = digits_value(t.subrange(0, k));
    if k == 0 || n > u64::MAX {
        Err(SizeError::InvalidNumber)
    } else {
        match unit_multiplier(t.subrange(k, t.len() as int)) {
            None => Err(SizeError::InvalidUnit),
            Some(m) => if n * m > u64::MAX {
                Err(SizeError::TooLarge)
            } else {
                Ok((n * m) as u64)
            },
        }
    }
}

proof fn lemma_digit_run(s: Seq<char>, i: int)
    requires
        0 <= i <= s.len(),
        forall|j: int| 0 <= j < i ==> is_digit(s[j]),
        i == s.len() || !is_digit(s[i]),
    ensures
        digit_run(s) == i,
    decreases i,
{
    if i > 0 {
        lemma_digit_run(s.drop_first(), i - 1);
    }
}

fn is_unit(u: &[char], name: &str) -> (r: bool)
    ensures
        r == (u@ == name@),
{
    if u.len() != name.unicode_len() {
        return false;
    }
    let r = starts_with(u, name);
    assert(u@ =~= u@.subrange(0, name@.len() as int));
    r
}

/// Reads an upper-case size text: digits, then an optional unit.
pub fn parse_size_upper(t: &str) -> (r: Result<u64, SizeError>)
    ensures
        r == size_value(t@),
{
    let s = chars_of(t);
    let mut k: usize = 0;
    let mut n: u64 = 0;
    let mut over = false;
    while k < s.len() && '0' <= s[k] && s[k] <= '9'
        invariant
            0 <= k <= s@.len(),
            forall|j: int| 0 <= j < k ==> is_digit(s@[j]),
            !over ==> n == digits_value(s@.subrange(0, k as int)),
            over ==> digits_value(s@.subrange(0, k as int)) > u64::MAX,
        decreases s@.len() - k,
    {
        let d = (s[k] as u32 - '0' as u32) as u64;
        proof {
            let p = s@.subrange(0, k as int + 1);
            assert(p.drop_last() =~= s@.subrange(0, k as int));
            assert(digits_value(p) == digits_value(s@.subrange(0, k as int)) * 10 + d);
        }
        if !over {
            if n > (u64::MAX - d) / 10 {
                over = true;
            } else {
                n = n * 10 + d;
            }
        }
        k = k + 1;
    }
    proof {
        lemma_digit_run(s@, k as int);
    }
    if k == 0 || over {
        return Err(SizeError::InvalidNumber);
    }
    let unit = crate::text::slice_chars(s.as_slice(), k, s.len());
    let m: u64 = if is_unit(unit.as_slice(), "K") || is_unit(unit.as_slice(), "KB") {
        KIB
    } else if is_unit(unit.as_slice(), "M") || is_unit(unit.as_slice(), "MB") {
        MIB
    } else if is_unit(unit.as_slice(), "G") || is_unit(unit.as_slice(), "GB") {
        GIB
    } else if unit.len() == 0 {
        1
    } else {
        return Err(SizeError::InvalidUnit);
    };
    if n > u64::MAX / m {
        proof {
            assert(n * m > u64::MAX) by (nonlinear_arith)
                requires
                    n > u64::MAX / m,
                    m > 0,
            ;
        }
        return Err(SizeError::TooLarge);
    }
    proof {
        assert(n * m <= u64::MAX) by (nonlinear_arith)
            requires
                n <= u64::MAX / m,
                m > 0,
        ;
    }
    Ok(n * m)
}

/// Reads a size such as `512M` or `64kb`: surrounding whitespace is ignored
/// and the unit is read without regard to case.
pub fn parse_size(s: &str) -> (r: Result<u64, SizeError>)
    ensures
        r == size_value(upper_of(trim(s@))),
{
    let chars = chars_of(s);
    let t = string_of(trim_chars(chars.as_slice()).as_slice());
    let u = uppercase(t.as_str());
    parse_size_upper(u.as_str())
}

} // verus!
