//! The unit mapper: short unit annotations become the long-form unit
//! suffixes of the output protocol, or no mapping at all.

use vstd::prelude::*;
use vstd::string::StrSliceExecFns;
use vstd::string::StringExecFns;

verus! {

/// The view of an optional borrowed text.
pub open spec fn view_opt_str(r: Option<&str>) -> Option<Seq<char>> {
    match r {
        Some(s) => Some(s@),
        None => None,
    }
}

/// The view of an optional owned text.
pub open spec fn view_opt_string(r: Option<String>) -> Option<Seq<char>> {
    match r {
        Some(s) => Some(s@),
        None => None,
    }
}

/// The fixed table of short units and their long forms.
pub open spec fn spec_prom_unit(u: Seq<char>) -> Option<Seq<char>> {
    if u == "d"@ {
        Some("days"@)
    } else if u == "h"@ {
        Some("hours"@)
    } else if u == "min"@ {
        Some("minutes"@)
    } else if u == "s"@ {
        Some("seconds"@)
    } else if u == "ms"@ {
        Some("milliseconds"@)
    } else if u == "us"@ {
        Some("microseconds"@)
    } else if u == "ns"@ {
        Some("nanoseconds"@)
    } else if u == "KiBy"@ {
        Some("kibibytes"@)
    } else if u == "MiBy"@ {
        Some("mebibytes"@)
    } else if u == "GiBy"@ {
        Some("gibibytes"@)
    } else if u == "TiBy"@ {
        Some("tibibytes"@)
    } else if u == "By"@ || u == "B"@ {
        Some("bytes"@)
    } else if u == "KBy"@ || u == "KB"@ {
        Some("kilobytes"@)
    } else if u == "MBy"@ || u == "MB"@ {
        Some("megabytes"@)
    } else if u == "GBy"@ || u == "GB"@ {
        Some("gigabytes"@)
    } else if u == "TBy"@ || u == "TB"@ {
        Some("terabytes"@)
    } else if u == "m"@ {
        Some("meters"@)
    } else if u == "V"@ {
        Some("volts"@)
    } else if u == "A"@ {
        Some("amperes"@)
    } else if u == "J"@ {
        Some("joules"@)
    } else if u == "W"@ {
        Some("watts"@)
    } else if u == "g"@ {
        Some("grams"@)
    } else if u == "Cel"@ {
        Some("celsius"@)
    } else if u == "Hz"@ {
        Some("hertz"@)
    } else if u == "1"@ {
        Some("ratio"@)
    } else if u == "%"@ {
        Some("percent"@)
    } else {
        None
    }
}

/// The fixed table of per-units for the denominator of a rate.
pub open spec fn spec_prom_per_unit(u: Seq<char>) -> Option<Seq<char>> {
    if u == "s"@ {
        Some("second"@)
    } else if u == "m"@ {
        Some("minute"@)
    } else if u == "h"@ {
        Some("hour"@)
    } else if u == "d"@ {
        Some("day"@)
    } else if u == "w"@ {
        Some("week"@)
    } else if u == "mo"@ {
        Some("month"@)
    } else if u == "y"@ {
        Some("year"@)
    } else {
        None
    }
}

/// Numerators whose long form is left off a rate.
pub open spec fn spec_non_applicable_on_per_unit(u: Seq<char>) -> bool {
    u == "1"@ || u == "d"@ || u == "h"@ || u == "min"@ || u == "s"@ || u == "ms"@ || u == "us"@ || u
        == "ns"@
}

/// The position of the first occurrence of `c` in `s`.
pub open spec fn spec_find(s: Seq<char>, c: char) -> Option<int>
    decreases s.len(),
{
    if s.len() == 0 {
        None
    } else if s[0] == c {
        Some(0)
    } else {
        match spec_find(s.drop_first(), c) {
            Some(i) => Some(i + 1),
            None => None,
        }
    }
}

proof fn lemma_find_at(s: Seq<char>, c: char, i: int)
    requires
        0 <= i < s.len(),
        s[i] == c,
        forall|k: int| 0 <= k < i ==> s[k] != c,
    ensures
        spec_find(s, c) == Some(i),
    decreases i,
{
    if i > 0 {
        lemma_find_at(s.drop_first(), c, i - 1);
    }
}

proof fn lemma_find_none(s: Seq<char>, c: char)
    requires
        forall|k: int| 0 <= k < s.len() ==> s[k] != c,
    ensures
        spec_find(s, c) is None,
    decreases s.len(),
{
    if s.len() > 0 {
        lemma_find_none(s.drop_first(), c);
    }
}

/// The mapped suffix of a unit annotation: an exact table match; else, for
/// an annotation with a slash, a rate over a recognized per-unit; else no
/// mapping.
pub open spec fn spec_unit_suffix(u: Seq<char>) -> Option<Seq<char>> {
    if u.len() == 0 {
        None
    } else if spec_prom_unit(u) is Some {
        spec_prom_unit(u)
    } else {
        match spec_find(u, '/') {
            None => None,
            Some(i) => {
                let first = u.subrange(0, i);
                let second = u.subrange(i + 1, u.len() as int);
                match spec_prom_per_unit(second) {
                    None => None,
                    Some(per) => if spec_non_applicable_on_per_unit(first) || spec_prom_unit(first)
                        is None {
                        Some("per_"@ + per)
                    } else {
                        Some(spec_prom_unit(first)->0 + "_per_"@ + per)
                    },
                }
            },
        }
    }
}

/// The exact table match of a short unit.
pub fn get_prom_units(unit: &str) -> (r: Option<&'static str>)
    ensures
        view_opt_str(r) == spec_prom_unit(unit@),
{
    if crate::text::str_eq(unit, "d") {
        Some("days")
    } else if crate::text::str_eq(unit, "h") {
        Some("hours")
    } else if crate::text::str_eq(unit, "min") {
        Some("minutes")
    } else if crate::text::str_eq(unit, "s") {
        Some("seconds")
    } else if crate::text::str_eq(unit, "ms") {
        Some("milliseconds")
    } else if crate::text::str_eq(unit, "us") {
        Some("microseconds")
    } else if crate::text::str_eq(unit, "ns") {
        Some("nanoseconds")
    } else if crate::text::str_eq(unit, "KiBy") {
        Some("kibibytes")
    } else if crate::text::str_eq(unit, "MiBy") {
        Some("mebibytes")
    } else if crate::text::str_eq(unit, "GiBy") {
        Some("gibibytes")
    } else if crate::text::str_eq(unit, "TiBy") {
        Some("tibibytes")
    } else if crate::text::str_eq(unit, "By") || crate::text::str_eq(unit, "B") {
        Some("bytes")
    } else if crate::text::str_eq(unit, "KBy") || crate::text::str_eq(unit, "KB") {
        Some("kilobytes")
    } else if crate::text::str_eq(unit, "MBy") || crate::text::str_eq(unit, "MB") {
        Some("megabytes")
    } else if crate::text::str_eq(unit, "GBy") || crate::text::str_eq(unit, "GB") {
        Some("gigabytes")
    } else if crate::text::str_eq(unit, "TBy") || crate::text::str_eq(unit, "TB") {
        Some("terabytes")
    } else if crate::text::str_eq(unit, "m") {
        Some("meters")
    } else if crate::text::str_eq(unit, "V") {
        Some("volts")
    } else if crate::text::str_eq(unit, "A") {
        Some("amperes")
    } else if crate::text::str_eq(unit, "J") {
        Some("joules")
    } else if crate::text::str_eq(unit, "W") {
        Some("watts")
    } else if crate::text::str_eq(unit, "g") {
        Some("grams")
    } else if crate::text::str_eq(unit, "Cel") {
        Some("celsius")
    } else if crate::text::str_eq(unit, "Hz") {
        Some("hertz")
    } else if crate::text::str_eq(unit, "1") {
        Some("ratio")
    } else if crate::text::str_eq(unit, "%") {
        Some("percent")
    } else {
        None
    }
}

/// The per-unit table match for a denominator.
pub fn get_prom_per_unit(unit: &str) -> (r: Option<&'static str>)
    ensures
        view_opt_str(r) == spec_prom_per_unit(unit@),
{
    if crate::text::str_eq(unit, "s") {
        Some("second")
    } else if crate::text::str_eq(unit, "m") {
        Some("minute")
    } else if crate::text::str_eq(unit, "h") {
        Some("hour")
    } else if crate::text::str_eq(unit, "d") {
        Some("day")
    } else if crate::text::str_eq(unit, "w") {
        Some("week")
    } else if crate::text::str_eq(unit, "mo") {
        Some("month")
    } else if crate::text::str_eq(unit, "y") {
        Some("year")
    } else {
        None
    }
}

fn non_applicable_on_per_unit(unit: &str) -> (r: bool)
    ensures
        r == spec_non_applicable_on_per_unit(unit@),
{
    crate::text::str_eq(unit, "1") || crate::text::str_eq(unit, "d") || crate::text::str_eq(
        unit,
        "h",
    ) || crate::text::str_eq(unit, "min") || crate::text::str_eq(unit, "s") || crate::text::str_eq(
        unit,
        "ms",
    ) || crate::text::str_eq(unit, "us") || crate::text::str_eq(unit, "ns")
}

/// The long-form suffix for a unit annotation, if there is one.
pub fn get_unit_suffixes(unit: &str) -> (r: Option<String>)
    ensures
        view_opt_string(r) == spec_unit_suffix(unit@),
{
    let n: usize = unit.unicode_len();
    if n == 0 {
        return None;
    }
    if let Some(direct) = get_prom_units(unit) {
        return Some(String::from_str(direct));
    }
    let mut i: usize = 0;
    let mut slash: Option<usize> = None;
    loop
        invariant_except_break
            n == unit@.len(),
            i <= n,
            slash is None,
            forall|k: int| 0 <= k < i ==> unit@[k] != '/',
        ensures
            n == unit@.len(),
            match slash {
                Some(k) => k < n && spec_find(unit@, '/') == Some(k as int),
                None => spec_find(unit@, '/') is None,
            },
        decreases n - i,
    {
        if i >= n {
            proof {
                lemma_find_none(unit@, '/');
            }
            break ;
        }
        let c = unit.get_char(i);
        if c == '/' {
            slash = Some(i);
            proof {
                lemma_find_at(unit@, '/', i as int);
            }
            break ;
        }
        i = i + 1;
    }
    match slash {
        None => None,
        Some(i) => {
            let first = unit.substring_char(0, i);
            let second = unit.substring_char(i + 1, n);
            match get_prom_per_unit(second) {
                None => None,
                Some(per) => {
                    let na = non_applicable_on_per_unit(first);
                    let first_mapped = get_prom_units(first);
                    if na || first_mapped.is_none() {
                        let mut out = String::from_str("per_");
                        out.append(per);
                        Some(out)
                    } else {
                        let head = first_mapped.unwrap();
                        let mut out = String::from_str(head);
                        out.append("_per_");
                        out.append(per);
                        Some(out)
                    }
                },
            }
        },
    }
}

} // verus!
