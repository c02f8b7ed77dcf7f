//! Domain conditions of routing rules: a regular expression, a keyword, a
//! domain with its subdomains, or an exact name.
use vstd::prelude::*;
use crate::text::{chars_of, literal, matches_at, slice_to_vec, string_from_chars, contains, contains_seq, ends_with, chars_eq};
use regex::Regex;

verus! {

#[verifier::external_type_specification]
#[verifier::external_body]
pub struct ExRegex(regex::Regex);

/// The pattern a compiled regular expression was built from, as
/// `Regex::as_str` returns it.
pub uninterp spec fn regex_source(re: Regex) -> Seq<char>;

/// Whether `pattern` is a valid regular expression for the `regex` crate.
pub uninterp spec fn regex_valid(pattern: Seq<char>) -> bool;

/// Whether the regular expression `pattern` matches somewhere in `text`.
pub uninterp spec fn regex_matches(pattern: Seq<char>, text: Seq<char>) -> bool;

/// `Regex::new`: compiles `pattern`, or `None` where the crate rejects it.
#[verifier::external_body]
pub fn regex_new(pattern: &str) -> (r: Option<Regex>)
    ensures
        r is Some <==> regex_valid(pattern@),
        r matches Some(re) ==> regex_source(re) == pattern@,
{
    Regex::new(pattern).ok()
}

/// `Regex::is_match`: whether the expression matches somewhere in `text`.
#[verifier::external_body]
pub fn regex_is_match(re: &Regex, text: &str) -> (r: bool)
    ensures
        r == regex_matches(regex_source(*re), text@),
{
    re.is_match(text)
}

/// A condition on the destination's domain name.
#[derive(Debug)]
pub enum DomainCondition {
    /// The name matches the expression somewhere.
    Pattern(Regex),
    /// The name contains the keyword.
    Keyword(String),
    /// The name is the domain or one of its subdomains; kept with a leading
    /// dot.
    Domain(String),
    /// The name is exactly this one.
    Full(String),
}

/// Why a domain rule was refused.
#[derive(Debug, Clone, Copy, PartialEq, Eq, Structural)]
pub enum DomainRuleError {
    /// The `regex:` pattern does not compile.
    InvalidRegex,
    /// A `domain:` rule holds characters beyond ASCII.
    NonAscii,
}

/// The abstract form of a domain condition.
pub enum DomainRule {
    Pattern(Seq<char>),
    Keyword(Seq<char>),
    Domain(Seq<char>),
    Full(Seq<char>),
}

pub open spec fn is_ascii_chars(s: Seq<char>) -> bool {
    forall|i: int| 0 <= i < s.len() ==> (#[trigger] s[i]) <= '\x7f'
}

/// What a rule text denotes: `regex:`, `full:` and `domain:` prefixes pick
/// the kind, anything else is a keyword.
pub open spec fn spec_parse_rule(s: Seq<char>) -> Result<DomainRule, DomainRuleError> {
    if s.len() >= 6 && s.take(6) == "regex:"@ {
        if regex_valid(s.skip(6)) { Ok(DomainRule::Pattern(s.skip(6))) } else { Err(DomainRuleError::InvalidRegex) }
    } else if s.len() >= 5 && s.take(5) == "full:"@ {
        Ok(DomainRule::Full(s.skip(5)))
    } else if s.len() >= 7 && s.take(7) == "domain:"@ {
        if is_ascii_chars(s.skip(7)) {
            Ok(DomainRule::Domain(seq!['.'] + s.skip(7)))
        } else {
            Err(DomainRuleError::NonAscii)
        }
    } else {
        Ok(DomainRule::Keyword(s))
    }
}

/// Whether a domain rule matches the name `d`.
pub open spec fn rule_matches(rule: DomainRule, d: Seq<char>) -> bool {
    match rule {
        DomainRule::Pattern(p) => regex_matches(p, d),
        DomainRule::Keyword(k) => contains_seq(d, k),
        DomainRule::Domain(dm) => d == dm.skip(1)
            || (dm.len() <= d.len() && d.subrange(d.len() - dm.len(), d.len() as int) == dm),
        DomainRule::Full(f) => d == f,
    }
}

impl DomainCondition {
    /// The abstract rule.
    pub open spec fn rule(&self) -> DomainRule {
        match self {
            DomainCondition::Pattern(re) => DomainRule::Pattern(regex_source(*re)),
            DomainCondition::Keyword(k) => DomainRule::Keyword(k@),
            DomainCondition::Domain(d) => DomainRule::Domain(d@),
            DomainCondition::Full(f) => DomainRule::Full(f@),
        }
    }

    /// A `Domain` condition keeps its leading dot.
    pub open spec fn wf(&self) -> bool {
        self matches DomainCondition::Domain(d) ==> d@.len() >= 1 && d@[0] == '.'
    }

    /// Reads a rule text.
    pub fn from_str(s: &str) -> (r: Result<DomainCondition, DomainRuleError>)
        ensures
            match spec_parse_rule(s@) {
                Ok(rule) => r matches Ok(c) && c.rule() == rule && c.wf(),
                Err(e) => r matches Err(f) && f == e,
            },
    {
        let cs = chars_of(s);
        let n = cs.len();
        proof {
            reveal_strlit("regex:");
            reveal_strlit("full:");
            reveal_strlit("domain:");
        }
        if matches_at(cs.as_slice(), literal("regex:").as_slice(), 0) {
            assert(cs@.subrange(0, 6) == cs@.take(6));
            let rest = string_from_chars(slice_to_vec(cs.as_slice(), 6, n).as_slice());
            return match regex_new(rest.as_str()) {
                Some(re) => Ok(DomainCondition::Pattern(re)),
                None => Err(DomainRuleError::InvalidRegex),
            };
        }
        assert(!(cs@.len() >= 6 && cs@.take(6) == "regex:"@)) by {
            if cs@.len() >= 6 && cs@.take(6) == "regex:"@ {
                assert(cs@.subrange(0, 6) == cs@.take(6));
            }
        }
        if matches_at(cs.as_slice(), literal("full:").as_slice(), 0) {
            assert(cs@.subrange(0, 5) == cs@.take(5));
            let rest = string_from_chars(slice_to_vec(cs.as_slice(), 5, n).as_slice());
            return Ok(DomainCondition::Full(rest));
        }
        assert(!(cs@.len() >= 5 && cs@.take(5) == "full:"@)) by {
            if cs@.len() >= 5 && cs@.take(5) == "full:"@ {
                assert(cs@.subrange(0, 5) == cs@.take(5));
            }
        }
        if matches_at(cs.as_slice(), literal("domain:").as_slice(), 0) {
            assert(cs@.subrange(0, 7) == cs@.take(7));
            let mut i: usize = 7;
            while i < n
                invariant
                    7 <= i <= n == cs@.len(),
                    cs@ == s@,
                    !(s@.len() >= 6 && s@.take(6) == "regex:"@),
                    !(s@.len() >= 5 && s@.take(5) == "full:"@),
                    s@.len() >= 7 && s@.take(7) == "domain:"@,
                    forall|j: int| 7 <= j < i ==> (#[trigger] cs@[j]) <= '\x7f',
                decreases n - i,
            {
                if cs[i] > '\x7f' {
                    assert(cs@.skip(7)[i - 7] == cs@[i as int]);
                    return Err(DomainRuleError::NonAscii);
                }
                i = i + 1;
            }
            let mut d = String::new();
            crate::text::push_char(&mut d, '.');
            crate::text::push_chars(&mut d, slice_to_vec(cs.as_slice(), 7, n).as_slice());
            assert(is_ascii_chars(cs@.skip(7))) by {
                assert forall|j: int| 0 <= j < cs@.skip(7).len() implies (#[trigger] cs@.skip(7)[j]) <= '\x7f' by {
                    assert(cs@.skip(7)[j] == cs@[j + 7]);
                }
            }
            assert(d@ == seq!['.'] + cs@.skip(7));
            return Ok(DomainCondition::Domain(d));
        }
        assert(!(cs@.len() >= 7 && cs@.take(7) == "domain:"@)) by {
            if cs@.len() >= 7 && cs@.take(7) == "domain:"@ {
                assert(cs@.subrange(0, 7) == cs@.take(7));
            }
        }
        Ok(DomainCondition::Keyword(s.to_owned()))
    }

    /// Whether the condition matches the domain name `domain`.
    pub fn is_match(&self, domain: &str) -> (r: bool)
        requires
            self.wf(),
        ensures
            r == rule_matches(self.rule(), domain@),
    {
        match self {
            DomainCondition::Pattern(re) => regex_is_match(re, domain),
            DomainCondition::Keyword(kw) => {
                let d = chars_of(domain);
                let k = chars_of(kw.as_str());
                contains(d.as_slice(), k.as_slice())
            },
            DomainCondition::Domain(dm) => {
                let d = chars_of(domain);
                let m = chars_of(dm.as_str());
                let tail = slice_to_vec(m.as_slice(), 1, m.len());
                assert(tail@ == m@.skip(1));
                chars_eq(d.as_slice(), tail.as_slice()) || ends_with(d.as_slice(), m.as_slice())
            },
            DomainCondition::Full(f) => {
                let d = chars_of(domain);
                let m = chars_of(f.as_str());
                chars_eq(d.as_slice(), m.as_slice())
            },
        }
    }
}

} // verus!
