//! The persisted run state: a single progress counter, read from and
//! written to a one-line configuration text.  The file I/O around it
//! stays outside; this is the codec.

use vstd::prelude::*;
use vstd::string::*;

use crate::bytes::{
    append_bytes, parse_dec, parse_dec_spec, split_byte, split_spec, starts_with, starts_with_spec,
    trim, trim_spec, views_of,
};

verus! {

/// The persisted state: how many manifest lines, counted from the
/// bottom, have already been processed.
#[derive(Debug, Clone, Copy, PartialEq, Eq, Structural)]
pub struct AppConfig {
    pub lines_from_bottom: usize,
}

impl Default for AppConfig {
    /// A fresh run: nothing processed yet.
    fn default() -> (r: AppConfig)
        ensures
            r.lines_from_bottom == 0,
    {
        AppConfig { lines_from_bottom: 0 }
    }
}

/// Why a configuration text was rejected.
#[derive(Debug, Clone, Copy, PartialEq, Eq, Structural)]
pub enum ConfigError {
    /// No `lines_from_bottom` entry in the text.
    MissingKey,
    /// The entry exists but its value is not a counter.
    BadValue,
}

/// What one configuration line holds for the key: `Some(Some(n))` for a
/// well-formed `lines_from_bottom = n`, `Some(None)` for a line that
/// names the key but is malformed, `None` for any other line.
pub open spec fn config_line_value(line: Seq<u8>) -> Option<Option<nat>> {
    let t = trim_spec(line);
    if starts_with_spec(t, "lines_from_bottom".spec_bytes()) {
        let rest = trim_spec(t.skip("lines_from_bottom".spec_bytes().len() as int));
        if rest.len() > 0 && rest[0] == 61 {
            Some(parse_dec_spec(trim_spec(rest.skip(1)), usize::MAX as nat))
        } else {
            Some(None)
        }
    } else {
        None
    }
}

/// What the whole text holds: the first line naming the key decides.
pub open spec fn config_value_spec(lines: Seq<Seq<u8>>) -> Option<Option<nat>>
    decreases lines.len(),
{
    if lines.len() == 0 {
        None
    } else {
        match config_line_value(lines[0]) {
            Some(v) => Some(v),
            None => config_value_spec(lines.drop_first()),
        }
    }
}

/// Reads and writes the persisted configuration text.
#[derive(Debug)]
pub struct ConfigManager;

impl ConfigManager {
    pub fn new() -> (r: ConfigManager) {
        ConfigManager
    }

    /// Reads the progress counter out of a configuration text: a
    /// missing text means a fresh run; the first line naming the key
    /// must carry `= <counter>`.
    #[verifier::loop_isolation(false)]
    pub fn load(&self, raw: Option<&Vec<u8>>) -> (r: Result<AppConfig, ConfigError>)
        ensures
            match raw {
                None => r == Ok::<AppConfig, ConfigError>(AppConfig { lines_from_bottom: 0 }),
                Some(v) => match config_value_spec(split_spec(v@, 10)) {
                    Some(Some(n)) => r matches Ok(c) && c.lines_from_bottom == n,
                    Some(None) => r == Err::<AppConfig, ConfigError>(ConfigError::BadValue),
                    None => r == Err::<AppConfig, ConfigError>(ConfigError::MissingKey),
                },
            },
    {
        let v = match raw {
            Some(v) => v,
            None => {
                return Ok(AppConfig { lines_from_bottom: 0 });
            },
        };
        let lines = split_byte(v.as_slice(), 10);
        let n = lines.len();
        let ghost lv = views_of(lines@);
        let mut i: usize = 0;
        proof {
            assert(lv.skip(0) =~= lv);
        }
        while i < n
            invariant
                0 <= i <= n,
                n == lines@.len(),
                lv == views_of(lines@),
                lv == split_spec(v@, 10),
                config_value_spec(lv) == config_value_spec(lv.skip(i as int)),
            decreases n - i,
        {
            proof {
                let rest = lv.skip(i as int);
                assert(rest[0] == lv[i as int]);
                assert(rest.drop_first() =~= lv.skip(i + 1));
            }
            let t = trim(lines[i].as_slice());
            let key = "lines_from_bottom".as_bytes();
            if starts_with(t.as_slice(), key) {
                let rest = trim(vstd::slice::slice_subrange(t.as_slice(), key.len(), t.len()));
                proof {
                    assert(t@.subrange(key@.len() as int, t@.len() as int) =~= t@.skip(
                        key@.len() as int,
                    ));
                }
                if rest.len() > 0 && rest[0] == 61 {
                    let val = trim(vstd::slice::slice_subrange(rest.as_slice(), 1, rest.len()));
                    proof {
                        assert(rest@.subrange(1, rest@.len() as int) =~= rest@.skip(1));
                    }
                    match parse_dec(val.as_slice(), usize::MAX as u64) {
                        Some(x) => {
                            return Ok(AppConfig { lines_from_bottom: x as usize });
                        },
                        None => {
                            return Err(ConfigError::BadValue);
                        },
                    }
                } else {
                    return Err(ConfigError::BadValue);
                }
            }
            i += 1;
        }
        proof {
            assert(lv.skip(n as int) =~= Seq::<Seq<u8>>::empty());
        }
        Err(ConfigError::MissingKey)
    }

    /// Writes the configuration text: one `lines_from_bottom = <n>`
    /// line.
    pub fn save(&self, config: &AppConfig) -> (r: Vec<u8>)
        ensures
            r@ == "lines_from_bottom = ".spec_bytes() + dec_digits(config.lines_from_bottom as nat)
                + seq![10u8],
    {
        let mut r = "lines_from_bottom = ".as_bytes_vec();
        let digits = fmt_usize(config.lines_from_bottom);
        append_bytes(&mut r, digits.as_slice());
        r.push(10);
        proof {
            assert(r@ =~= "lines_from_bottom = ".spec_bytes() + dec_digits(
                config.lines_from_bottom as nat,
            ) + seq![10u8]);
        }
        r
    }
}

/// The decimal digit string of a counter.
pub open spec fn dec_digits(n: nat) -> Seq<u8>
    decreases n,
{
    if n < 10 {
        seq![(48 + n) as u8]
    } else {
        dec_digits(n / 10) + seq![(48 + n % 10) as u8]
    }
}

/// Writes a counter in decimal.
pub fn fmt_usize(n: usize) -> (r: Vec<u8>)
    ensures
        r@ == dec_digits(n as nat),
    decreases n,
{
    if n < 10 {
        let mut r: Vec<u8> = Vec::new();
        r.push(48 + (n as u8));
        proof {
            assert(r@ =~= dec_digits(n as nat));
        }
        r
    } else {
        let mut r = fmt_usize(n / 10);
        r.push(48 + ((n % 10) as u8));
        proof {
            assert(r@ =~= dec_digits(n as nat));
        }
        r
    }
}

} // verus!
