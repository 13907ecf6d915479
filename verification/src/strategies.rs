//! Digest selection strategies: a closed set of rules, each with a canonical
//! string form (`TOP_N#n`, `POINT_THRESHOLD#t`) that round-trips losslessly.
//! Values outside the configured sets are rejected at parse time.

use vstd::prelude::*;
use crate::num::{
    all_digits, dec_of, dec_of_int, dec_val, fmt_i64, fmt_u64, int_numeral_val, is_i64_numeral,
    lemma_dec_of, lemma_int_numeral_round_trip, parse_i64, parse_u64_digits,
};

verus! {

#[derive(Debug, Clone, Copy, PartialEq, Eq, Hash, Structural)]
pub enum DigestStrategy {
    TopN(usize),
    OverPointThreshold(i32),
}

/// The configured `TopN` sizes.
pub open spec fn valid_top_n(n: int) -> bool {
    n == 10 || n == 20 || n == 50
}

/// The configured point thresholds.
pub open spec fn valid_threshold(t: int) -> bool {
    t == 500 || t == 250 || t == 100
}

/// Whether a strategy belongs to the configured set.
pub open spec fn valid_strategy(s: DigestStrategy) -> bool {
    match s {
        DigestStrategy::TopN(n) => valid_top_n(n as int),
        DigestStrategy::OverPointThreshold(t) => valid_threshold(t as int),
    }
}

/// The canonical string form of a strategy.
pub open spec fn strategy_canon(s: DigestStrategy) -> Seq<char> {
    match s {
        DigestStrategy::TopN(n) => "TOP_N#"@ + dec_of(n as nat),
        DigestStrategy::OverPointThreshold(t) => "POINT_THRESHOLD#"@ + dec_of_int(t as int),
    }
}

/// What parsing a strategy string yields, if anything.
pub open spec fn spec_parse_strategy(s: Seq<char>) -> Option<DigestStrategy> {
    if s.len() > "TOP_N#"@.len() && s.subrange(0, "TOP_N#"@.len() as int) == "TOP_N#"@ {
        let rest = s.subrange("TOP_N#"@.len() as int, s.len() as int);
        if all_digits(rest) && valid_top_n(dec_val(rest)) {
            Some(DigestStrategy::TopN(dec_val(rest) as usize))
        } else {
            None
        }
    } else if s.len() > "POINT_THRESHOLD#"@.len() && s.subrange(
        0,
        "POINT_THRESHOLD#"@.len() as int,
    ) == "POINT_THRESHOLD#"@ {
        let rest = s.subrange("POINT_THRESHOLD#"@.len() as int, s.len() as int);
        if is_i64_numeral(rest) && valid_threshold(int_numeral_val(rest)) {
            Some(DigestStrategy::OverPointThreshold(int_numeral_val(rest) as i32))
        } else {
            None
        }
    } else {
        None
    }
}

/// Why a strategy string failed to parse.
#[derive(Debug, Clone, Copy, PartialEq, Eq, Structural)]
pub enum StrategyParseError {
    /// A `TOP_N#` value outside the configured set, or not a number.
    InvalidTopN,
    /// A `POINT_THRESHOLD#` value outside the configured set, or not a number.
    InvalidThreshold,
    /// Neither recognized prefix.
    InvalidFormat,
}

impl StrategyParseError {
    /// A human-readable message for the error.
    pub fn message(&self) -> (r: &'static str)
        ensures
            match self {
                StrategyParseError::InvalidTopN => r@ == "Invalid TOP_N value"@,
                StrategyParseError::InvalidThreshold => r@ == "Invalid POINT_THRESHOLD value"@,
                StrategyParseError::InvalidFormat => r@ == "Invalid strategy format"@,
            },
    {
        match self {
            StrategyParseError::InvalidTopN => "Invalid TOP_N value",
            StrategyParseError::InvalidThreshold => "Invalid POINT_THRESHOLD value",
            StrategyParseError::InvalidFormat => "Invalid strategy format",
        }
    }
}

/// Whether `pre` is a proper prefix of `s`, i.e. `s` is longer than `pre`
/// and starts with it.
fn has_proper_prefix(s: &str, pre: &str) -> (r: bool)
    ensures
        r == (s@.len() > pre@.len() && s@.subrange(0, pre@.len() as int) == pre@),
{
    let n = s.unicode_len();
    let m = pre.unicode_len();
    if n <= m {
        return false;
    }
    let mut i: usize = 0;
    while i < m
        invariant
            n == s@.len(),
            m == pre@.len(),
            m < n,
            0 <= i <= m,
            forall|k: int| 0 <= k < i ==> s@[k] == #[trigger] pre@[k],
        decreases m - i,
    {
        if s.get_char(i) as u32 != pre.get_char(i) as u32 {
            assert(s@[i as int] != pre@[i as int]);
            assert(s@.subrange(0, pre@.len() as int)[i as int] == s@[i as int]);
            return false;
        }
        i = i + 1;
    }
    proof {
        assert(s@.subrange(0, pre@.len() as int) =~= pre@);
    }
    true
}

impl DigestStrategy {
    /// All configured strategies, `TopN` sizes first.
    pub fn all() -> (r: Vec<DigestStrategy>)
        ensures
            r@ =~= seq![
                DigestStrategy::TopN(10),
                DigestStrategy::TopN(20),
                DigestStrategy::TopN(50),
                DigestStrategy::OverPointThreshold(500),
                DigestStrategy::OverPointThreshold(250),
                DigestStrategy::OverPointThreshold(100),
            ],
            forall|i: int| 0 <= i < r@.len() ==> valid_strategy(#[trigger] r@[i]),
    {
        let mut v: Vec<DigestStrategy> = Vec::new();
        v.push(DigestStrategy::TopN(10));
        v.push(DigestStrategy::TopN(20));
        v.push(DigestStrategy::TopN(50));
        v.push(DigestStrategy::OverPointThreshold(500));
        v.push(DigestStrategy::OverPointThreshold(250));
        v.push(DigestStrategy::OverPointThreshold(100));
        v
    }

    /// The largest configured `TopN` size.
    pub fn max_top_n() -> (r: usize)
        ensures
            r == 50,
            forall|n: int| valid_top_n(n) ==> n <= r,
    {
        50
    }

    /// The smallest configured point threshold.
    pub fn min_point_threshold() -> (r: i32)
        ensures
            r == 100,
            forall|t: int| valid_threshold(t) ==> t >= r,
    {
        100
    }

    /// The canonical string form, e.g. `TOP_N#10`.
    pub fn to_string(&self) -> (r: String)
        ensures
            r@ == strategy_canon(*self),
    {
        match self {
            DigestStrategy::TopN(n) => {
                let mut s = "TOP_N#".to_owned();
                let digits = fmt_u64(*n as u64);
                s.append(digits.as_str());
                proof {
                    assert(s@ =~= strategy_canon(*self));
                }
                s
            },
            DigestStrategy::OverPointThreshold(t) => {
                let mut s = "POINT_THRESHOLD#".to_owned();
                let digits = fmt_i64(*t as i64);
                s.append(digits.as_str());
                proof {
                    assert(s@ =~= strategy_canon(*self));
                }
                s
            },
        }
    }

    /// A human-readable description of this digest strategy.
    pub fn description(&self) -> (r: String)
        ensures
            r@ == spec_description(*self),
    {
        match self {
            DigestStrategy::TopN(n) => {
                let mut s = "Top ".to_owned();
                let digits = fmt_u64(*n as u64);
                s.append(digits.as_str());
                s.append(" stories by points");
                proof {
                    assert(s@ =~= spec_description(*self));
                }
                s
            },
            DigestStrategy::OverPointThreshold(t) => {
                let mut s = "All stories with ".to_owned();
                let digits = fmt_i64(*t as i64);
                s.append(digits.as_str());
                s.append("+ points");
                proof {
                    assert(s@ =~= spec_description(*self));
                }
                s
            },
        }
    }

    /// Parse a strategy string, rejecting values outside the configured set.
    pub fn parse(s: &str) -> (r: Result<DigestStrategy, StrategyParseError>)
        ensures
            r is Ok <==> spec_parse_strategy(s@) is Some,
            r is Ok ==> r->Ok_0 == spec_parse_strategy(s@)->Some_0 && valid_strategy(r->Ok_0),
            r is Err ==> r->Err_0 == spec_parse_error(s@),
    {
        let n = s.unicode_len();
        if has_proper_prefix(s, "TOP_N#") {
            proof {
                reveal_strlit("TOP_N#");
            }
            let rest = s.substring_char(6, n);
            proof {
                assert(rest@ =~= s@.subrange("TOP_N#"@.len() as int, s@.len() as int));
            }
            match parse_u64_digits(rest) {
                Some(v) if v == 10 || v == 20 || v == 50 => Ok(
                    DigestStrategy::TopN(v as usize),
                ),
                _ => {
                    proof {
                        if all_digits(rest@) {
                            crate::num::lemma_dec_val_nonneg(rest@);
                        }
                    }
                    Err(StrategyParseError::InvalidTopN)
                },
            }
        } else if has_proper_prefix(s, "POINT_THRESHOLD#") {
            proof {
                reveal_strlit("POINT_THRESHOLD#");
            }
            let rest = s.substring_char(16, n);
            proof {
                assert(rest@ =~= s@.subrange(
                    "POINT_THRESHOLD#"@.len() as int,
                    s@.len() as int,
                ));
            }
            match parse_i64(rest) {
                Some(v) if v == 500 || v == 250 || v == 100 => Ok(
                    DigestStrategy::OverPointThreshold(v as i32),
                ),
                _ => Err(StrategyParseError::InvalidThreshold),
            }
        } else {
            proof {
                reveal_strlit("TOP_N#");
                reveal_strlit("POINT_THRESHOLD#");
            }
            Err(StrategyParseError::InvalidFormat)
        }
    }
}

/// What `description` says of a strategy.
pub open spec fn spec_description(s: DigestStrategy) -> Seq<char> {
    match s {
        DigestStrategy::TopN(n) => "Top "@ + dec_of(n as nat) + " stories by points"@,
        DigestStrategy::OverPointThreshold(t) => "All stories with "@ + dec_of_int(t as int)
            + "+ points"@,
    }
}

impl core::str::FromStr for DigestStrategy {
    type Err = StrategyParseError;

    fn from_str(s: &str) -> Result<Self, Self::Err> {
        DigestStrategy::parse(s)
    }
}

/// The error that `DigestStrategy::parse` reports for a rejected string.
pub open spec fn spec_parse_error(s: Seq<char>) -> StrategyParseError {
    if s.len() > "TOP_N#"@.len() && s.subrange(0, "TOP_N#"@.len() as int) == "TOP_N#"@ {
        StrategyParseError::InvalidTopN
    } else if s.len() > "POINT_THRESHOLD#"@.len() && s.subrange(
        0,
        "POINT_THRESHOLD#"@.len() as int,
    ) == "POINT_THRESHOLD#"@ {
        StrategyParseError::InvalidThreshold
    } else {
        StrategyParseError::InvalidFormat
    }
}

/// The canonical form of a configured strategy parses back to the same
/// strategy.
pub proof fn lemma_strategy_round_trip(st: DigestStrategy)
    requires
        valid_strategy(st),
    ensures
        spec_parse_strategy(strategy_canon(st)) == Some(st),
{
    reveal_strlit("TOP_N#");
    reveal_strlit("POINT_THRESHOLD#");
    match st {
        DigestStrategy::TopN(n) => {
            let c = strategy_canon(st);
            lemma_dec_of(n as nat);
            assert(c.subrange(0, "TOP_N#"@.len() as int) =~= "TOP_N#"@);
            assert(c.subrange("TOP_N#"@.len() as int, c.len() as int) =~= dec_of(n as nat));
            // The digits of a TopN canonical form never start with the
            // threshold prefix, because lengths and characters differ.
            assert(c.len() > "TOP_N#"@.len());
        },
        DigestStrategy::OverPointThreshold(t) => {
            let c = strategy_canon(st);
            lemma_int_numeral_round_trip(t as int);
            assert(t >= 0);
            lemma_dec_of(t as nat);
            assert(c.subrange(0, "POINT_THRESHOLD#"@.len() as int) =~= "POINT_THRESHOLD#"@);
            assert(c.subrange("POINT_THRESHOLD#"@.len() as int, c.len() as int) =~= dec_of_int(
                t as int,
            ));
            // The canonical form does not carry the TOP_N# prefix: the
            // characters differ at index 0 onward.
            assert(!(c.len() > "TOP_N#"@.len() && c.subrange(0, "TOP_N#"@.len() as int)
                == "TOP_N#"@)) by {
                if c.len() > "TOP_N#"@.len() && c.subrange(0, "TOP_N#"@.len() as int)
                    == "TOP_N#"@ {
                    assert(c.subrange(0, "TOP_N#"@.len() as int)[0] == c[0]);
                    assert(c[0] == "POINT_THRESHOLD#"@[0]);
                }
            }
        },
    }
}

} // verus!
