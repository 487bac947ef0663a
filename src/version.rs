//! The release version model: reading (with the rescue of non-conformant
//! strings), rendering, and semantic-versioning precedence.
use vstd::prelude::*;
use crate::text::{
    all_digits, all_digits_exec, bounded_value, chars_of, decimal_text, has_no_dot, is_digit,
    join_dots, lemma_join_split, lemma_split_components_have_no_dot, lemma_split_dots_nonempty,
    lemma_split_injective, lemma_split_join, parse_unsigned, push_decimal, push_str, split_dots,
    split_dots_exec, string_of,
};

verus! {

/// A release version. Build metadata is carried and rendered, but takes no part
/// in precedence.
#[derive(Debug, Clone, PartialEq, Eq)]
pub struct Version {
    pub major: u64,
    pub minor: u64,
    pub patch: u64,
    pub pre: String,
    pub build: String,
}

/// (major, minor, patch, pre-release identifier, build metadata)
pub type VersionParts = (u64, u64, u64, Seq<char>, Seq<char>);

impl View for Version {
    type V = VersionParts;

    open spec fn view(&self) -> VersionParts {
        (self.major, self.minor, self.patch, self.pre@, self.build@)
    }
}

/// What `semver::Version::parse` makes of a text, as plain parts; `None` where it
/// rejects the text.
pub uninterp spec fn semver_of(s: Seq<char>) -> Option<(u64, u64, u64, Seq<char>, Seq<char>)>;

/// `major.minor.patch`
pub open spec fn core_text(v: VersionParts) -> Seq<char> {
    decimal_text(v.0 as nat) + seq!['.'] + decimal_text(v.1 as nat) + seq!['.'] + decimal_text(
        v.2 as nat,
    )
}

/// `major.minor.patch-pre`
pub open spec fn core_pre_text(v: VersionParts) -> Seq<char> {
    core_text(v) + seq!['-'] + v.3
}

pub open spec fn pre_suffix(v: VersionParts) -> Seq<char> {
    if v.3.len() > 0 {
        seq!['-'] + v.3
    } else {
        Seq::<char>::empty()
    }
}

pub open spec fn build_suffix(v: VersionParts) -> Seq<char> {
    if v.4.len() > 0 {
        seq!['+'] + v.4
    } else {
        Seq::<char>::empty()
    }
}

/// The canonical text: `major.minor.patch[-pre][+build]`.
pub open spec fn version_text(v: VersionParts) -> Seq<char> {
    core_text(v) + pre_suffix(v) + build_suffix(v)
}

/// The text without build metadata: `major.minor.patch[-pre]`.
pub open spec fn display_text(v: VersionParts) -> Seq<char> {
    core_text(v) + pre_suffix(v)
}

/// Relies on `semver::Version::parse`: it accepts a text only in the form that
/// semver's `Display` writes back unchanged (no leading zeros, no empty
/// pre-release or build part, nothing after them).
#[verifier::external_body]
pub(crate) fn semver_parse(s: &str) -> (r: Option<Version>)
    ensures
        match r {
            Some(v) => semver_of(s@) == Some(v@) && version_text(v@) == s@,
            None => semver_of(s@) is None,
        },
{
    semver::Version::parse(s).ok().map(
        |v|
            Version {
                major: v.major,
                minor: v.minor,
                patch: v.patch,
                pre: v.pre.as_str().to_string(),
                build: v.build.as_str().to_string(),
            },
    )
}

/// A tag-style leading `v` removed.
pub open spec fn tag_stripped(s: Seq<char>) -> Seq<char> {
    if s.len() > 0 && s[0] == 'v' {
        s.drop_first()
    } else {
        s
    }
}

/// A legacy four-part number `5.a.b.c`: at least four components, the first
/// `5`, every one of them a non-empty run of digits.
pub open spec fn is_legacy_four(s: Seq<char>) -> bool {
    let c = split_dots(s);
    &&& c.len() >= 4
    &&& c[0] == seq!['5']
    &&& forall|k: int| 0 <= k < c.len() ==> (#[trigger] c[k]).len() > 0 && all_digits(c[k])
}

/// The first three components of a legacy four-part number; other texts unchanged.
pub open spec fn legacy_compressed(s: Seq<char>) -> Seq<char> {
    if is_legacy_four(s) {
        join_dots(split_dots(s).take(3))
    } else {
        s
    }
}

/// The text that is handed to the semantic-version reader.
pub open spec fn normalized_text(raw: Seq<char>) -> Seq<char> {
    legacy_compressed(tag_stripped(raw))
}

/// The `k`-th dot-separated component read as a `u64`; 0 where it is absent or
/// not a number.
pub open spec fn component_value(s: Seq<char>, k: int) -> u64 {
    let c = split_dots(s);
    if 0 <= k < c.len() {
        match bounded_value(c[k], u64::MAX as nat) {
            Some(v) => v as u64,
            None => 0,
        }
    } else {
        0
    }
}

/// `major.minor.0` from the two leading components.
pub open spec fn fallback_parts(s: Seq<char>) -> VersionParts {
    (component_value(s, 0), component_value(s, 1), 0, Seq::<char>::empty(), Seq::<char>::empty())
}

/// The reading of an already normalized text.
pub open spec fn text_parts(t: Seq<char>) -> VersionParts {
    match semver_of(t) {
        Some(p) => p,
        None => fallback_parts(t),
    }
}

/// What `Version::parse` makes of any text.
pub open spec fn parsed_parts(raw: Seq<char>) -> VersionParts {
    text_parts(normalized_text(raw))
}

/// Character-by-character order of two texts; a proper prefix sorts first.
pub open spec fn text_lt(a: Seq<char>, b: Seq<char>) -> bool
    decreases a.len(),
{
    if a.len() == 0 {
        b.len() > 0
    } else if b.len() == 0 {
        false
    } else if a[0] != b[0] {
        a[0] < b[0]
    } else {
        text_lt(a.drop_first(), b.drop_first())
    }
}

/// Precedence of two pre-release identifiers: numeric ones by value (no leading
/// zeros: by length, then digits), numeric below alphanumeric, alphanumeric ones
/// in ASCII order.
pub open spec fn ident_lt(a: Seq<char>, b: Seq<char>) -> bool {
    let an = all_digits(a);
    let bn = all_digits(b);
    if an && bn {
        a.len() < b.len() || (a.len() == b.len() && text_lt(a, b))
    } else if an {
        true
    } else if bn {
        false
    } else {
        text_lt(a, b)
    }
}

/// Identifier lists compared field by field; a proper prefix sorts first.
pub open spec fn idents_lt(x: Seq<Seq<char>>, y: Seq<Seq<char>>) -> bool
    decreases x.len(),
{
    if x.len() == 0 {
        y.len() > 0
    } else if y.len() == 0 {
        false
    } else if x[0] != y[0] {
        ident_lt(x[0], y[0])
    } else {
        idents_lt(x.drop_first(), y.drop_first())
    }
}

/// Pre-release precedence: no pre-release sorts above any pre-release.
pub open spec fn pre_lt(a: Seq<char>, b: Seq<char>) -> bool {
    a.len() > 0 && (b.len() == 0 || idents_lt(split_dots(a), split_dots(b)))
}

/// Semantic-versioning precedence; build metadata is ignored.
pub open spec fn version_lt(a: VersionParts, b: VersionParts) -> bool {
    ||| a.0 < b.0
    ||| a.0 == b.0 && a.1 < b.1
    ||| a.0 == b.0 && a.1 == b.1 && a.2 < b.2
    ||| a.0 == b.0 && a.1 == b.1 && a.2 == b.2 && pre_lt(a.3, b.3)
}

/// The parts that precedence looks at.
pub open spec fn precedence_key(v: VersionParts) -> (u64, u64, u64, Seq<char>) {
    (v.0, v.1, v.2, v.3)
}

proof fn lemma_decimal_text_digits(n: nat)
    ensures
        decimal_text(n).len() > 0,
        all_digits(decimal_text(n)),
    decreases n,
{
    if n >= 10 {
        lemma_decimal_text_digits(n / 10);
    }
}

/// Every character of a text whose components are all digits is a digit or a dot.
proof fn lemma_digit_components(s: Seq<char>)
    requires
        forall|k: int| 0 <= k < split_dots(s).len() ==> all_digits(#[trigger] split_dots(s)[k]),
    ensures
        forall|i: int| 0 <= i < s.len() ==> is_digit(#[trigger] s[i]) || s[i] == '.',
    decreases s.len(),
{
    if s.len() > 0 {
        let p = s.drop_last();
        let init = split_dots(p);
        lemma_split_dots_nonempty(p);
        if s.last() != '.' {
            let full = split_dots(s);
            assert(full == init.update(init.len() - 1, init.last().push(s.last())));
            assert(all_digits(full[init.len() - 1]));
            assert(full[init.len() - 1] == init.last().push(s.last()));
            assert(is_digit(full[init.len() - 1][init.last().len() as int]));
            assert forall|k: int| 0 <= k < init.len() implies all_digits(#[trigger] init[k]) by {
                if k == init.len() - 1 {
                    assert forall|i: int| 0 <= i < init[k].len() implies is_digit(
                        #[trigger] init[k][i],
                    ) by {
                        assert(init[k][i] == full[k][i]);
                    }
                } else {
                    assert(init[k] == full[k]);
                }
            }
        } else {
            assert forall|k: int| 0 <= k < init.len() implies all_digits(#[trigger] init[k]) by {
                assert(init[k] == split_dots(s)[k]);
            }
        }
        lemma_digit_components(p);
        assert forall|i: int| 0 <= i < s.len() implies is_digit(#[trigger] s[i]) || s[i] == '.' by {
            if i < s.len() - 1 {
                assert(s[i] == p[i]);
            }
        }
    }
}

/// A canonical version text never starts with `v` and is never a legacy
/// four-part number, so normalization leaves it unchanged.
proof fn lemma_canonical_text_is_normal(v: VersionParts)
    ensures
        normalized_text(version_text(v)) == version_text(v),
{
    let s = version_text(v);
    let (a, b, c) = (decimal_text(v.0 as nat), decimal_text(v.1 as nat), decimal_text(v.2 as nat));
    lemma_decimal_text_digits(v.0 as nat);
    lemma_decimal_text_digits(v.1 as nat);
    lemma_decimal_text_digits(v.2 as nat);
    assert(s[0] == a[0]);
    assert(is_digit(a[0]));
    assert(tag_stripped(s) == s);
    if is_legacy_four(s) {
        lemma_digit_components(s);
        let j = (a.len() + 1 + b.len() + 1 + c.len()) as int;
        if v.3.len() > 0 {
            assert(s[j] == '-');
        } else if v.4.len() > 0 {
            assert(s[j] == '+');
        }
        let parts = seq![a, b, c];
        assert(s =~= join_dots(parts)) by {
            let pair = seq![a, b];
            assert(parts.drop_last() =~= pair);
            assert(pair.drop_last() =~= seq![a]);
            assert(join_dots(seq![a]) == a);
            assert(join_dots(pair) == join_dots(pair.drop_last()).push('.') + pair.last());
            assert(join_dots(parts) == join_dots(parts.drop_last()).push('.') + parts.last());
        }
        assert forall|k: int| 0 <= k < parts.len() implies has_no_dot(#[trigger] parts[k]) by {
            let q = parts[k];
            assert(all_digits(q));
            assert forall|i: int| 0 <= i < q.len() implies #[trigger] q[i] != '.' by {
                assert(is_digit(q[i]));
            }
        }
        lemma_split_join(parts);
        assert(false);
    }
}

proof fn lemma_text_lt_asym(a: Seq<char>, b: Seq<char>)
    ensures
        text_lt(a, b) ==> !text_lt(b, a),
    decreases a.len(),
{
    if a.len() > 0 && b.len() > 0 && a[0] == b[0] {
        lemma_text_lt_asym(a.drop_first(), b.drop_first());
    }
}

proof fn lemma_text_lt_trans(a: Seq<char>, b: Seq<char>, c: Seq<char>)
    ensures
        text_lt(a, b) && text_lt(b, c) ==> text_lt(a, c),
    decreases a.len(),
{
    if a.len() > 0 && b.len() > 0 && c.len() > 0 && a[0] == b[0] && b[0] == c[0] {
        lemma_text_lt_trans(a.drop_first(), b.drop_first(), c.drop_first());
    }
}

proof fn lemma_text_lt_total(a: Seq<char>, b: Seq<char>)
    ensures
        a != b ==> text_lt(a, b) || text_lt(b, a),
    decreases a.len(),
{
    if a.len() > 0 && b.len() > 0 && a[0] == b[0] {
        lemma_text_lt_total(a.drop_first(), b.drop_first());
        if a.drop_first() == b.drop_first() {
            assert(a =~= seq![a[0]] + a.drop_first());
            assert(b =~= seq![b[0]] + b.drop_first());
        }
    } else if a.len() == 0 && b.len() == 0 {
        assert(a =~= b);
    }
}

proof fn lemma_ident_lt_order(a: Seq<char>, b: Seq<char>, c: Seq<char>)
    ensures
        ident_lt(a, b) ==> !ident_lt(b, a),
        ident_lt(a, b) && ident_lt(b, c) ==> ident_lt(a, c),
        a != b ==> ident_lt(a, b) || ident_lt(b, a),
{
    lemma_text_lt_asym(a, b);
    lemma_text_lt_trans(a, b, c);
    lemma_text_lt_total(a, b);
}

proof fn lemma_idents_lt_asym(x: Seq<Seq<char>>, y: Seq<Seq<char>>)
    ensures
        idents_lt(x, y) ==> !idents_lt(y, x),
    decreases x.len(),
{
    if x.len() > 0 && y.len() > 0 {
        if x[0] == y[0] {
            lemma_idents_lt_asym(x.drop_first(), y.drop_first());
        } else {
            lemma_ident_lt_order(x[0], y[0], y[0]);
        }
    }
}

proof fn lemma_idents_lt_trans(x: Seq<Seq<char>>, y: Seq<Seq<char>>, z: Seq<Seq<char>>)
    ensures
        idents_lt(x, y) && idents_lt(y, z) ==> idents_lt(x, z),
    decreases x.len(),
{
    if x.len() > 0 && y.len() > 0 && z.len() > 0 {
        lemma_ident_lt_order(x[0], y[0], z[0]);
        lemma_ident_lt_order(z[0], x[0], y[0]);
        lemma_ident_lt_order(y[0], z[0], x[0]);
        if x[0] == y[0] && y[0] == z[0] {
            lemma_idents_lt_trans(x.drop_first(), y.drop_first(), z.drop_first());
        }
    }
}

proof fn lemma_idents_lt_total(x: Seq<Seq<char>>, y: Seq<Seq<char>>)
    ensures
        x != y ==> idents_lt(x, y) || idents_lt(y, x),
    decreases x.len(),
{
    if x.len() > 0 && y.len() > 0 {
        if x[0] == y[0] {
            lemma_idents_lt_total(x.drop_first(), y.drop_first());
            if x.drop_first() == y.drop_first() {
                assert(x =~= seq![x[0]] + x.drop_first());
                assert(y =~= seq![y[0]] + y.drop_first());
            }
        } else {
            lemma_ident_lt_order(x[0], y[0], y[0]);
        }
    } else if x.len() == 0 && y.len() == 0 {
        assert(x =~= y);
    }
}

proof fn lemma_pre_lt_order(a: Seq<char>, b: Seq<char>, c: Seq<char>)
    ensures
        pre_lt(a, b) ==> !pre_lt(b, a),
        pre_lt(a, b) && pre_lt(b, c) ==> pre_lt(a, c),
        a != b ==> pre_lt(a, b) || pre_lt(b, a),
{
    lemma_idents_lt_asym(split_dots(a), split_dots(b));
    lemma_idents_lt_trans(split_dots(a), split_dots(b), split_dots(c));
    lemma_idents_lt_total(split_dots(a), split_dots(b));
    if a != b && split_dots(a) == split_dots(b) {
        lemma_split_injective(a, b);
    }
    if a.len() == 0 && b.len() == 0 {
        assert(a =~= b);
    }
}

/// Precedence is a strict total order on versions that differ in anything but
/// build metadata: irreflexive, asymmetric, transitive, and any two such
/// versions are comparable.
pub proof fn lemma_precedence_is_strict_total_order(a: Version, b: Version, c: Version)
    ensures
        !version_lt(a@, a@),
        version_lt(a@, b@) ==> !version_lt(b@, a@),
        version_lt(a@, b@) && version_lt(b@, c@) ==> version_lt(a@, c@),
        precedence_key(a@) != precedence_key(b@) ==> version_lt(a@, b@) || version_lt(b@, a@),
{
    lemma_pre_lt_order(a.pre@, a.pre@, a.pre@);
    lemma_pre_lt_order(a.pre@, b.pre@, c.pre@);
}

/// A legacy four-part number `5.a.b.c` reads as the same version as its
/// truncation `5.a.b`.
pub proof fn lemma_legacy_four_reads_as_truncation(s: Seq<char>)
    requires
        is_legacy_four(s),
    ensures
        parsed_parts(s) == parsed_parts(join_dots(split_dots(s).take(3))),
{
    let c = split_dots(s);
    let t = join_dots(c.take(3));
    assert(s[0] == '5') by {
        lemma_join_split(s);
        assert(c[0] == seq!['5']);
        assert(c[0][0] == '5');
        lemma_join_prefix(c);
    }
    assert(tag_stripped(s) == s);
    lemma_split_components_have_no_dot(s);
    let parts = c.take(3);
    assert forall|k: int| 0 <= k < parts.len() implies has_no_dot(#[trigger] parts[k]) by {
        assert(parts[k] == c[k]);
    }
    lemma_split_join(parts);
    assert(split_dots(t).len() == 3);
    assert(t[0] == '5') by {
        assert(parts[0] == seq!['5']);
        assert(parts[0][0] == '5');
        lemma_join_prefix(parts);
    }
    assert(tag_stripped(t) == t);
    assert(!is_legacy_four(t));
}

/// The first component's first character starts the joined text.
proof fn lemma_join_prefix(parts: Seq<Seq<char>>)
    requires
        parts.len() >= 1,
        parts[0].len() > 0,
    ensures
        join_dots(parts).len() > 0,
        join_dots(parts)[0] == parts[0][0],
    decreases parts.len(),
{
    if parts.len() > 1 {
        lemma_join_prefix(parts.drop_last());
    }
}

/// A text that the semantic-version reader rejects after normalization reads
/// as `major.minor.0` from its two leading components, with no pre-release and
/// no build metadata.
pub proof fn lemma_malformed_reads_as_major_minor(raw: Seq<char>)
    requires
        semver_of(normalized_text(raw)) is None,
    ensures
        parsed_parts(raw).0 == component_value(normalized_text(raw), 0),
        parsed_parts(raw).1 == component_value(normalized_text(raw), 1),
        parsed_parts(raw).2 == 0,
        parsed_parts(raw).3.len() == 0,
        parsed_parts(raw).4.len() == 0,
{
}

fn push_char(out: &mut Vec<char>, c: char)
    ensures
        final(out)@ == old(out)@ + seq![c],
{
    out.push(c);
    assert(final(out)@ =~= old(out)@ + seq![c]);
}

impl Version {
    /// `major.minor.0` with no pre-release and no build metadata.
    pub fn fix_version(major: u64, minor: u64) -> (r: Version)
        ensures
            r@ == (major, minor, 0u64, Seq::<char>::empty(), Seq::<char>::empty()),
    {
        Version { major, minor, patch: 0, pre: String::new(), build: String::new() }
    }

    /// `major.minor.0` from the two leading dot-separated components of `text`,
    /// each read as an unsigned number and 0 where it is absent or not one.
    pub fn fallback(text: &str) -> (r: Version)
        ensures
            r@ == fallback_parts(text@),
    {
        let cs = chars_of(text);
        let comps = split_dots_exec(&cs);
        proof {
            lemma_split_dots_nonempty(text@);
        }
        let major = match parse_unsigned(&comps[0], u64::MAX) {
            Some(v) => v,
            None => 0,
        };
        let minor = if comps.len() > 1 {
            match parse_unsigned(&comps[1], u64::MAX) {
                Some(v) => v,
                None => 0,
            }
        } else {
            0
        };
        Version::fix_version(major, minor)
    }

    /// The reading of `text` once a parse result for it is known: the parsed
    /// version where there is one, else the `major.minor.0` rescue.
    pub fn from_parse_result(text: &str, parsed: Option<Version>) -> (r: Version)
        ensures
            r@ == match parsed {
                Some(v) => v@,
                None => fallback_parts(text@),
            },
    {
        match parsed {
            Some(v) => v,
            None => Version::fallback(text),
        }
    }

    /// Reads an already normalized text as a semantic version, rescuing a
    /// non-conformant one as `major.minor.0`.
    pub fn try_to_parse(text: &str) -> (r: Version)
        ensures
            r@ == text_parts(text@),
    {
        let parsed = semver_parse(text);
        Version::from_parse_result(text, parsed)
    }

    /// Reads any text as a version; never fails. A leading `v` is dropped, a
    /// legacy four-part number `5.a.b.c` is cut to `5.a.b`, and a text that is
    /// still no semantic version is rescued as `major.minor.0`. A text that is
    /// already a semantic version reads back to itself.
    pub fn parse(raw: &str) -> (r: Version)
        ensures
            r@ == parsed_parts(raw@),
            semver_of(raw@) is Some ==> version_text(r@) == raw@,
    {
        let direct = semver_parse(raw);
        if let Some(v) = direct {
            proof {
                lemma_canonical_text_is_normal(v@);
            }
            return v;
        }
        let cs = chars_of(raw);
        let mut stripped: Vec<char> = Vec::new();
        let start: usize = if cs.len() > 0 && cs[0] == 'v' {
            1
        } else {
            0
        };
        let mut i: usize = start;
        while i < cs.len()
            invariant
                start <= i <= cs@.len(),
                stripped@ == cs@.subrange(start as int, i as int),
            decreases cs.len() - i,
        {
            stripped.push(cs[i]);
            i = i + 1;
            assert(stripped@ =~= cs@.subrange(start as int, i as int));
        }
        assert(stripped@ =~= tag_stripped(raw@));
        let normal = Version::legacy_compress(&stripped);
        let text = string_of(&normal);
        Version::try_to_parse(text.as_str())
    }

    fn legacy_compress(s: &Vec<char>) -> (r: Vec<char>)
        ensures
            r@ == legacy_compressed(s@),
    {
        let comps = split_dots_exec(s);
        let ghost c = split_dots(s@);
        if comps.len() < 4 {
            return copy_chars(s);
        }
        let first = &comps[0];
        if !(first.len() == 1 && first[0] == '5') {
            proof {
                if c[0] == seq!['5'] {
                    assert(first@ == c[0]);
                }
            }
            return copy_chars(s);
        }
        assert(first@ =~= seq!['5']);
        let mut k: usize = 0;
        while k < comps.len()
            invariant
                k <= comps@.len(),
                c == split_dots(s@),
                comps@.len() == c.len(),
                forall|j: int| 0 <= j < comps@.len() ==> (#[trigger] comps@[j])@ == c[j],
                forall|j: int| 0 <= j < k ==> (#[trigger] c[j]).len() > 0 && all_digits(c[j]),
            decreases comps.len() - k,
        {
            if comps[k].len() == 0 || !all_digits_exec(&comps[k]) {
                assert(comps@[k as int]@ == c[k as int]);
                assert(!((c[k as int]).len() > 0 && all_digits(c[k as int])));
                return copy_chars(s);
            }
            k = k + 1;
        }
        let mut r: Vec<char> = Vec::new();
        r.append(&mut copy_chars(&comps[0]));
        push_char(&mut r, '.');
        r.append(&mut copy_chars(&comps[1]));
        push_char(&mut r, '.');
        r.append(&mut copy_chars(&comps[2]));
        proof {
            let t = c.take(3);
            let pair = seq![c[0], c[1]];
            assert(t.drop_last() =~= pair);
            assert(pair.drop_last() =~= seq![c[0]]);
            assert(join_dots(seq![c[0]]) == c[0]);
            assert(join_dots(pair) == join_dots(pair.drop_last()).push('.') + pair.last());
            assert(join_dots(t) == join_dots(t.drop_last()).push('.') + t.last());
            assert(r@ =~= join_dots(t));
        }
        r
    }

    fn text_chars(&self) -> (r: Vec<char>)
        ensures
            r@ == version_text(self@),
    {
        let mut out = self.display_chars();
        if self.build.as_str().unicode_len() > 0 {
            push_char(&mut out, '+');
            push_str(&mut out, self.build.as_str());
        }
        assert(out@ =~= version_text(self@));
        out
    }

    fn display_chars(&self) -> (r: Vec<char>)
        ensures
            r@ == display_text(self@),
    {
        let mut out = self.core_chars();
        if self.pre.as_str().unicode_len() > 0 {
            push_char(&mut out, '-');
            push_str(&mut out, self.pre.as_str());
        }
        assert(out@ =~= display_text(self@));
        out
    }

    fn core_chars(&self) -> (r: Vec<char>)
        ensures
            r@ == core_text(self@),
    {
        let mut out: Vec<char> = Vec::new();
        push_decimal(&mut out, self.major);
        push_char(&mut out, '.');
        push_decimal(&mut out, self.minor);
        push_char(&mut out, '.');
        push_decimal(&mut out, self.patch);
        assert(out@ =~= core_text(self@));
        out
    }

    /// The canonical text `major.minor.patch[-pre][+build]`.
    pub fn to_string(&self) -> (r: String)
        ensures
            r@ == version_text(self@),
    {
        string_of(&self.text_chars())
    }

    /// `major.minor.patch`
    pub fn mmp(&self) -> (r: String)
        ensures
            r@ == core_text(self@),
    {
        string_of(&self.core_chars())
    }

    /// `major.minor.patch-pre`, the dash written even where `pre` is empty.
    pub fn mmpp(&self) -> (r: String)
        ensures
            r@ == core_pre_text(self@),
    {
        let mut out = self.core_chars();
        push_char(&mut out, '-');
        push_str(&mut out, self.pre.as_str());
        assert(out@ =~= core_pre_text(self@));
        string_of(&out)
    }

    /// `major.minor.patch`, followed by `-pre` where there is a pre-release.
    pub fn display(&self) -> (r: String)
        ensures
            r@ == display_text(self@),
    {
        string_of(&self.display_chars())
    }

    /// Whether `self` has lower precedence than `other`.
    pub fn precedes(&self, other: &Version) -> (r: bool)
        ensures
            r == version_lt(self@, other@),
    {
        if self.major != other.major {
            return self.major < other.major;
        }
        if self.minor != other.minor {
            return self.minor < other.minor;
        }
        if self.patch != other.patch {
            return self.patch < other.patch;
        }
        prerelease_lt(&self.pre, &other.pre)
    }

    /// Whether `self` has at least the precedence of `other`.
    pub fn at_least(&self, other: &Version) -> (r: bool)
        ensures
            r == !version_lt(self@, other@),
    {
        !self.precedes(other)
    }
}

fn prerelease_lt(a: &String, b: &String) -> (r: bool)
    ensures
        r == pre_lt(a@, b@),
{
    let ac = chars_of(a.as_str());
    let bc = chars_of(b.as_str());
    if ac.len() == 0 {
        return false;
    }
    if bc.len() == 0 {
        return true;
    }
    let x = split_dots_exec(&ac);
    let y = split_dots_exec(&bc);
    let ghost xs = split_dots(a@);
    let ghost ys = split_dots(b@);
    let mut i: usize = 0;
    assert(xs.skip(0) =~= xs);
    assert(ys.skip(0) =~= ys);
    while i < x.len() && i < y.len()
        invariant
            xs == split_dots(a@),
            ys == split_dots(b@),
            a@.len() > 0,
            b@.len() > 0,
            x@.len() == xs.len(),
            y@.len() == ys.len(),
            forall|k: int| 0 <= k < x@.len() ==> (#[trigger] x@[k])@ == xs[k],
            forall|k: int| 0 <= k < y@.len() ==> (#[trigger] y@[k])@ == ys[k],
            i <= x@.len(),
            i <= y@.len(),
            idents_lt(xs, ys) == idents_lt(xs.skip(i as int), ys.skip(i as int)),
        decreases x.len() - i,
    {
        let xi = &x[i];
        let yi = &y[i];
        assert(xs.skip(i as int)[0] == xs[i as int]);
        assert(ys.skip(i as int)[0] == ys[i as int]);
        if !chars_equal(xi, yi) {
            return ident_lt_exec(xi, yi);
        }
        assert(xs.skip(i as int).drop_first() =~= xs.skip(i + 1));
        assert(ys.skip(i as int).drop_first() =~= ys.skip(i + 1));
        i = i + 1;
    }
    i < y.len()
}

fn copy_chars(s: &Vec<char>) -> (r: Vec<char>)
    ensures
        r@ == s@,
{
    let mut r: Vec<char> = Vec::new();
    let mut i: usize = 0;
    while i < s.len()
        invariant
            i <= s@.len(),
            r@ == s@.subrange(0, i as int),
        decreases s.len() - i,
    {
        r.push(s[i]);
        i = i + 1;
        assert(r@ =~= s@.subrange(0, i as int));
    }
    assert(r@ =~= s@);
    r
}

fn chars_equal(a: &Vec<char>, b: &Vec<char>) -> (r: bool)
    ensures
        r == (a@ == b@),
{
    if a.len() != b.len() {
        return false;
    }
    let mut i: usize = 0;
    while i < a.len()
        invariant
            a@.len() == b@.len(),
            i <= a@.len(),
            forall|k: int| 0 <= k < i ==> a@[k] == b@[k],
        decreases a.len() - i,
    {
        if a[i] != b[i] {
            return false;
        }
        i = i + 1;
    }
    assert(a@ =~= b@);
    true
}

fn text_lt_exec(a: &Vec<char>, b: &Vec<char>) -> (r: bool)
    ensures
        r == text_lt(a@, b@),
{
    let mut i: usize = 0;
    assert(a@.skip(0) =~= a@);
    assert(b@.skip(0) =~= b@);
    while i < a.len() && i < b.len()
        invariant
            i <= a@.len(),
            i <= b@.len(),
            text_lt(a@, b@) == text_lt(a@.skip(i as int), b@.skip(i as int)),
        decreases a.len() - i,
    {
        assert(a@.skip(i as int)[0] == a@[i as int]);
        assert(b@.skip(i as int)[0] == b@[i as int]);
        if a[i] != b[i] {
            return a[i] < b[i];
        }
        assert(a@.skip(i as int).drop_first() =~= a@.skip(i + 1));
        assert(b@.skip(i as int).drop_first() =~= b@.skip(i + 1));
        i = i + 1;
    }
    i < b.len()
}

fn ident_lt_exec(a: &Vec<char>, b: &Vec<char>) -> (r: bool)
    ensures
        r == ident_lt(a@, b@),
{
    let an = all_digits_exec(a);
    let bn = all_digits_exec(b);
    if an && bn {
        a.len() < b.len() || (a.len() == b.len() && text_lt_exec(a, b))
    } else if an {
        true
    } else if bn {
        false
    } else {
        text_lt_exec(a, b)
    }
}

} // verus!
