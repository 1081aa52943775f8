//! Versions as `semver` reads and orders them, and the order of two version
//! texts whether or not they are versions.
use crate::order::{number_order, Order};
use crate::text::{
    compare_text, decimal, law_text_order, law_text_order_first_difference, law_text_order_prefix,
    law_text_order_transitive, lemma_position, position, same_text, split, text_order,
};
use std::cmp::Ordering;
use vstd::prelude::*;

verus! {

/// `semver` stores a pre-release or build metadata behind its length, and
/// panics on one of this many characters or more.
pub const VERSION_LIMIT: u64 = 0x100_0000_0000_0000;

/// Whether a version text is short enough for `semver` on this machine: it
/// and the few bytes stored with it must fit into one allocation.
pub open spec fn holdable(text: Seq<char>) -> bool {
    text.len() < VERSION_LIMIT && text.len() + 16 <= isize::MAX
}

/// A version as its five parts; `pre` and `build` are empty where absent.
pub struct VersionParts {
    pub major: u64,
    pub minor: u64,
    pub patch: u64,
    pub pre: String,
    pub build: String,
}

/// What a `VersionParts` stands for.
#[verifier::ext_equal]
pub struct VersionModel {
    pub major: nat,
    pub minor: nat,
    pub patch: nat,
    pub pre: Seq<char>,
    pub build: Seq<char>,
}

impl View for VersionParts {
    type V = VersionModel;

    open spec fn view(&self) -> VersionModel {
        VersionModel {
            major: self.major as nat,
            minor: self.minor as nat,
            patch: self.patch as nat,
            pre: self.pre@,
            build: self.build@,
        }
    }
}

/// Whether `c` is an ASCII digit.
pub open spec fn is_digit(c: char) -> bool {
    '0' <= c <= '9'
}

/// Whether `c` may stand in a pre-release or build identifier.
pub open spec fn identifier_char(c: char) -> bool {
    is_digit(c) || 'A' <= c <= 'Z' || 'a' <= c <= 'z' || c == '-'
}

/// Whether `s` holds only digits.
pub open spec fn numeric(s: Seq<char>) -> bool {
    forall|i: int| 0 <= i < s.len() ==> is_digit(#[trigger] s[i])
}

/// Whether `s` is absent or a series of non-empty identifiers separated by
/// dots; unless `zeros`, no numeric identifier has a leading zero.
pub open spec fn valid_series(s: Seq<char>, zeros: bool) -> bool {
    s.len() == 0 || {
        &&& forall|i: int| 0 <= i < s.len() ==> identifier_char(#[trigger] s[i]) || s[i] == '.'
        &&& forall|k: int|
            0 <= k < split(s, '.').len() ==> (#[trigger] split(s, '.')[k]).len() > 0 && (zeros
                || canonical(split(s, '.')[k]))
    }
}

/// Whether an identifier is not a number written with a leading zero.
pub open spec fn canonical(id: Seq<char>) -> bool {
    numeric(id) && id.len() > 1 ==> id[0] != '0'
}

impl VersionModel {
    /// Whether this is a version: its numbers fit their type, its pre-release
    /// and build metadata are well formed.
    pub open spec fn valid(self) -> bool {
        &&& self.major <= u64::MAX
        &&& self.minor <= u64::MAX
        &&& self.patch <= u64::MAX
        &&& valid_series(self.pre, false)
        &&& valid_series(self.build, true)
    }

    /// What follows the numbers in the text of the version.
    pub open spec fn suffix(self) -> Seq<char> {
        (if self.pre.len() == 0 {
            Seq::empty()
        } else {
            seq!['-'] + self.pre
        }) + self.build_suffix()
    }

    /// What follows the pre-release in the text of the version.
    pub open spec fn build_suffix(self) -> Seq<char> {
        if self.build.len() == 0 {
            Seq::empty()
        } else {
            seq!['+'] + self.build
        }
    }

    /// The text of the version: `major.minor.patch`, then `-pre` and `+build`
    /// where present.
    pub open spec fn text(self) -> Seq<char> {
        decimal(self.major) + (seq!['.'] + (decimal(self.minor) + (seq!['.'] + (decimal(self.patch)
            + self.suffix()))))
    }
}

/// The number that a numeral stands for.
pub open spec fn numeral_value(s: Seq<char>) -> int
    decreases s.len(),
{
    if s.len() == 0 {
        0
    } else {
        10 * numeral_value(s.drop_last()) + (s.last() as int - 0x30)
    }
}

/// The order of two identifiers: numbers numerically, with the longer numeral
/// last among equals; a number before anything else; the rest as texts.
pub open spec fn identifier_order(a: Seq<char>, b: Seq<char>) -> Order {
    if numeric(a) && numeric(b) {
        number_order(numeral_value(a), numeral_value(b)).or(
            number_order(a.len() as int, b.len() as int),
        )
    } else if numeric(a) {
        Order::Less
    } else if numeric(b) {
        Order::Greater
    } else {
        text_order(a, b)
    }
}

/// The lexicographic order of two series of identifiers.
pub open spec fn series_order(a: Seq<Seq<char>>, b: Seq<Seq<char>>) -> Order
    decreases a.len(),
{
    if a.len() == 0 && b.len() == 0 {
        Order::Equal
    } else if a.len() == 0 {
        Order::Less
    } else if b.len() == 0 {
        Order::Greater
    } else {
        identifier_order(a[0], b[0]).or(series_order(a.drop_first(), b.drop_first()))
    }
}

/// The order of two pre-releases, where a release comes after all of its
/// pre-releases.
pub open spec fn pre_order(a: Seq<char>, b: Seq<char>) -> Order {
    if a.len() == 0 && b.len() == 0 {
        Order::Equal
    } else if a.len() == 0 {
        Order::Greater
    } else if b.len() == 0 {
        Order::Less
    } else {
        series_order(split(a, '.'), split(b, '.'))
    }
}

/// The order of two versions: by number, then by pre-release, then by build
/// metadata.
pub open spec fn version_order(a: VersionModel, b: VersionModel) -> Order {
    number_order(a.major as int, b.major as int).or(
        number_order(a.minor as int, b.minor as int),
    ).or(number_order(a.patch as int, b.patch as int)).or(pre_order(a.pre, b.pre)).or(
        series_order(split(a.build, '.'), split(b.build, '.')),
    )
}

/// The version that `text` spells, if it spells one.
pub open spec fn spelled(text: Seq<char>) -> Option<VersionModel> {
    if exists|v: VersionModel| v.valid() && #[trigger] v.text() == text {
        Some(choose|v: VersionModel| v.valid() && #[trigger] v.text() == text)
    } else {
        None
    }
}

/// The order of two version texts: as versions where both are, else as texts.
pub open spec fn versions_order(local: Seq<char>, published: Seq<char>) -> Order {
    match (spelled(local), spelled(published)) {
        (Some(a), Some(b)) => version_order(a, b),
        _ => text_order(local, published),
    }
}

/// An order as the standard library writes it.
pub open spec fn std_order(o: Order) -> Ordering {
    match o {
        Order::Less => Ordering::Less,
        Order::Equal => Ordering::Equal,
        Order::Greater => Ordering::Greater,
    }
}

/// The error of `semver`'s parser, carried and not looked into.
#[verifier::external_type_specification]
#[verifier::external_body]
pub struct ExSemverError(semver::Error);

/// `semver::Version::parse`. Not proved here: it accepts exactly the texts
/// that spell a version, and gives the version that the text spells.
#[verifier::external_body]
fn parse_version(text: &str) -> (r: Result<VersionParts, semver::Error>)
    requires
        holdable(text@),
    ensures
        r matches Ok(v) ==> v@.valid() && v@.text() == text@,
        r is Err ==> forall|v: VersionModel| v.valid() ==> #[trigger] v.text() != text@,
{
    let v = semver::Version::parse(text)?;
    Ok(VersionParts {
        major: v.major,
        minor: v.minor,
        patch: v.patch,
        pre: v.pre.as_str().to_owned(),
        build: v.build.as_str().to_owned(),
    })
}

/// `<semver::Version as Ord>::cmp`. Not proved here: it orders versions by
/// number, then by pre-release, then by build metadata, as `version_order`
/// says. The arguments become `semver::Version` values by way of
/// `Prerelease::new` and `BuildMetadata::new`, which accept every well-formed
/// series.
#[verifier::external_body]
fn order_versions(a: &VersionParts, b: &VersionParts) -> (r: Ordering)
    requires
        a@.valid(),
        b@.valid(),
        holdable(a@.pre),
        holdable(a@.build),
        holdable(b@.pre),
        holdable(b@.build),
    ensures
        r == std_order(version_order(a@, b@)),
{
    let mut left = semver::Version::new(a.major, a.minor, a.patch);
    left.pre = semver::Prerelease::new(&a.pre).unwrap();
    left.build = semver::BuildMetadata::new(&a.build).unwrap();
    let mut right = semver::Version::new(b.major, b.minor, b.patch);
    right.pre = semver::Prerelease::new(&b.pre).unwrap();
    right.build = semver::BuildMetadata::new(&b.build).unwrap();
    left.cmp(&right)
}

/// The order of a crate's version and the published one: as versions where
/// both are valid, else as plain texts.
pub fn compare_versions(local: &str, published: &str) -> (r: Ordering)
    requires
        holdable(local@),
        holdable(published@),
    ensures
        r == std_order(versions_order(local@, published@)),
{
    if let (Ok(a), Ok(b)) = (parse_version(local), parse_version(published)) {
        proof {
            lemma_spelled(a@, local@);
            lemma_spelled(b@, published@);
            lemma_parts_shorter(a@);
            lemma_parts_shorter(b@);
        }
        order_versions(&a, &b)
    } else if same_text(local, published) {
        proof {
            law_text_order(local@, published@);
        }
        Ordering::Equal
    } else {
        match compare_text(local, published) {
            Order::Less => Ordering::Less,
            Order::Equal => Ordering::Equal,
            Order::Greater => Ordering::Greater,
        }
    }
}

proof fn lemma_parts_shorter(v: VersionModel)
    ensures
        v.pre.len() <= v.text().len(),
        v.build.len() <= v.text().len(),
{
}

proof fn lemma_spelled(v: VersionModel, text: Seq<char>)
    requires
        v.valid(),
        v.text() == text,
    ensures
        spelled(text) == Some(v),
{
    let w = choose|w: VersionModel| w.valid() && #[trigger] w.text() == text;
    law_text_spells_one_version(v, w);
}

proof fn lemma_numeral_of_decimal(n: nat)
    ensures
        decimal(n).len() > 0,
        numeric(decimal(n)),
        numeral_value(decimal(n)) == n,
    decreases n,
{
    if n < 10 {
        assert(decimal(n).drop_last() =~= Seq::empty());
        assert(numeral_value(Seq::<char>::empty()) == 0);
    } else {
        lemma_numeral_of_decimal(n / 10);
        assert(decimal(n).drop_last() =~= decimal(n / 10));
    }
}

/// A run of characters that all satisfy `p` ends where the first one does not.
proof fn lemma_run(a: Seq<char>, t: Seq<char>, b: Seq<char>, u: Seq<char>, p: spec_fn(char) -> bool)
    requires
        a + t == b + u,
        forall|i: int| 0 <= i < a.len() ==> p(#[trigger] a[i]),
        forall|i: int| 0 <= i < b.len() ==> p(#[trigger] b[i]),
        t.len() > 0 ==> !p(t[0]),
        u.len() > 0 ==> !p(u[0]),
    ensures
        a == b,
        t == u,
{
    let s = a + t;
    let z = b + u;
    if a.len() < b.len() {
        assert(s[a.len() as int] == t[0]);
        assert(z[a.len() as int] == b[a.len() as int]);
    } else if b.len() < a.len() {
        assert(z[b.len() as int] == u[0]);
        assert(s[b.len() as int] == a[b.len() as int]);
    }
    assert(a =~= s.take(a.len() as int));
    assert(b =~= z.take(a.len() as int));
    assert(t =~= s.skip(a.len() as int));
    assert(u =~= z.skip(a.len() as int));
}

proof fn lemma_number_run(m: nat, t: Seq<char>, n: nat, u: Seq<char>)
    requires
        decimal(m) + t == decimal(n) + u,
        t.len() > 0 ==> !is_digit(t[0]),
        u.len() > 0 ==> !is_digit(u[0]),
    ensures
        m == n,
        t == u,
{
    lemma_numeral_of_decimal(m);
    lemma_numeral_of_decimal(n);
    lemma_run(decimal(m), t, decimal(n), u, |c: char| is_digit(c));
}

proof fn lemma_after_dot(t: Seq<char>, u: Seq<char>)
    requires
        seq!['.'] + t == seq!['.'] + u,
    ensures
        t == u,
{
    assert(t =~= (seq!['.'] + t).skip(1));
    assert(u =~= (seq!['.'] + u).skip(1));
}

/// A text spells at most one version.
pub proof fn law_text_spells_one_version(v: VersionModel, w: VersionModel)
    requires
        v.valid(),
        w.valid(),
        v.text() == w.text(),
    ensures
        v == w,
{
    let v3 = decimal(v.patch) + v.suffix();
    let w3 = decimal(w.patch) + w.suffix();
    let v2 = decimal(v.minor) + (seq!['.'] + v3);
    let w2 = decimal(w.minor) + (seq!['.'] + w3);
    lemma_number_run(v.major, seq!['.'] + v2, w.major, seq!['.'] + w2);
    lemma_after_dot(v2, w2);
    lemma_number_run(v.minor, seq!['.'] + v3, w.minor, seq!['.'] + w3);
    lemma_after_dot(v3, w3);
    lemma_number_run(v.patch, v.suffix(), w.patch, w.suffix());
    assert(v.pre.len() > 0 ==> v.suffix()[0] == '-');
    assert(w.pre.len() > 0 ==> w.suffix()[0] == '-');
    assert(v.pre.len() == 0 ==> v.suffix() =~= v.build_suffix());
    assert(w.pre.len() == 0 ==> w.suffix() =~= w.build_suffix());
    if v.pre.len() > 0 {
        assert(v.pre + v.build_suffix() =~= v.suffix().skip(1));
        assert(w.pre + w.build_suffix() =~= w.suffix().skip(1));
        lemma_run(v.pre, v.build_suffix(), w.pre, w.build_suffix(), |c: char| c != '+');
    } else {
        assert(v.pre =~= w.pre);
    }
    if v.build.len() > 0 {
        assert(v.build =~= v.build_suffix().skip(1));
        assert(w.build =~= w.build_suffix().skip(1));
    } else {
        assert(v.build =~= w.build);
    }
    assert(v =~= w);
}

/// Equal numerals of equal length are the same text.
proof fn lemma_numeral_value_injective(a: Seq<char>, b: Seq<char>)
    requires
        numeric(a),
        numeric(b),
        a.len() == b.len(),
        numeral_value(a) == numeral_value(b),
    ensures
        a == b,
    decreases a.len(),
{
    if a.len() > 0 {
        let x = a.drop_last();
        let y = b.drop_last();
        assert(is_digit(a[a.len() - 1]));
        assert(is_digit(b[b.len() - 1]));
        assert forall|i: int| 0 <= i < x.len() implies is_digit(#[trigger] x[i]) by {
            assert(is_digit(a[i]));
        }
        assert forall|i: int| 0 <= i < y.len() implies is_digit(#[trigger] y[i]) by {
            assert(is_digit(b[i]));
        }
        lemma_numeral_value_injective(x, y);
        assert(a =~= x.push(a.last()));
        assert(b =~= y.push(b.last()));
    } else {
        assert(a =~= b);
    }
}

proof fn lemma_identifier_order(a: Seq<char>, b: Seq<char>)
    ensures
        identifier_order(a, b) == Order::Equal <==> a == b,
        identifier_order(b, a) == identifier_order(a, b).reversed(),
{
    law_text_order(a, b);
    law_text_order(b, a);
    if numeric(a) && numeric(b) && numeral_value(a) == numeral_value(b) && a.len() == b.len() {
        lemma_numeral_value_injective(a, b);
    }
}

proof fn lemma_series_order(a: Seq<Seq<char>>, b: Seq<Seq<char>>)
    ensures
        series_order(a, b) == Order::Equal <==> a == b,
        series_order(b, a) == series_order(a, b).reversed(),
    decreases a.len(),
{
    if a.len() > 0 && b.len() > 0 {
        lemma_identifier_order(a[0], b[0]);
        lemma_series_order(a.drop_first(), b.drop_first());
        if a[0] == b[0] && a.drop_first() == b.drop_first() {
            assert(a =~= seq![a[0]] + a.drop_first());
            assert(b =~= seq![b[0]] + b.drop_first());
        }
    } else if a.len() == 0 && b.len() == 0 {
        assert(a =~= b);
    }
}

proof fn lemma_split_nonempty(s: Seq<char>, c: char)
    ensures
        split(s, c).len() > 0,
    decreases s.len(),
{
    lemma_position(s, c);
}

/// The pieces of a text tell the text.
proof fn lemma_split_injective(a: Seq<char>, b: Seq<char>, c: char)
    ensures
        split(a, c) == split(b, c) ==> a == b,
    decreases a.len(),
{
    lemma_position(a, c);
    lemma_position(b, c);
    let i = position(a, c);
    let j = position(b, c);
    let ra = a.subrange(i + 1, a.len() as int);
    let rb = b.subrange(j + 1, b.len() as int);
    if split(a, c) == split(b, c) {
        if i < a.len() && j < b.len() {
            lemma_split_injective(ra, rb, c);
            assert(split(ra, c) =~= split(a, c).skip(1));
            assert(split(rb, c) =~= split(b, c).skip(1));
            assert(split(a, c)[0] == a.subrange(0, i));
            assert(split(b, c)[0] == b.subrange(0, j));
            assert(a =~= a.subrange(0, i) + seq![c] + ra);
            assert(b =~= b.subrange(0, j) + seq![c] + rb);
        } else if i < a.len() {
            lemma_split_nonempty(ra, c);
            assert(split(b, c).len() == 1);
        } else if j < b.len() {
            lemma_split_nonempty(rb, c);
            assert(split(a, c).len() == 1);
        } else {
            assert(split(a, c)[0] == a);
            assert(split(b, c)[0] == b);
        }
    }
}

/// Two versions are equal in the order exactly where they are the same, and
/// exchanging them reverses it.
pub proof fn law_version_order(a: VersionModel, b: VersionModel)
    ensures
        version_order(a, b) == Order::Equal <==> a == b,
        version_order(b, a) == version_order(a, b).reversed(),
{
    lemma_series_order(split(a.pre, '.'), split(b.pre, '.'));
    lemma_series_order(split(a.build, '.'), split(b.build, '.'));
    lemma_split_injective(a.pre, b.pre, '.');
    lemma_split_injective(a.build, b.build, '.');
    if a.pre.len() == 0 && b.pre.len() == 0 {
        assert(a.pre =~= b.pre);
    }
    if version_order(a, b) == Order::Equal {
        assert(a =~= b);
    }
}

proof fn lemma_series_order_transitive(a: Seq<Seq<char>>, b: Seq<Seq<char>>, c: Seq<Seq<char>>)
    requires
        series_order(a, b) == Order::Less,
        series_order(b, c) == Order::Less,
    ensures
        series_order(a, c) == Order::Less,
    decreases a.len(),
{
    if a.len() > 0 && b.len() > 0 && c.len() > 0 {
        lemma_identifier_order(a[0], b[0]);
        lemma_identifier_order(b[0], c[0]);
        if identifier_order(a[0], b[0]) == Order::Less && identifier_order(b[0], c[0])
            == Order::Less {
            if !numeric(a[0]) && !numeric(b[0]) && !numeric(c[0]) {
                law_text_order_transitive(a[0], b[0], c[0]);
            }
            assert(identifier_order(a[0], c[0]) == Order::Less);
        } else if a[0] == b[0] && b[0] == c[0] {
            lemma_series_order_transitive(a.drop_first(), b.drop_first(), c.drop_first());
        }
    }
}

/// The order of versions is transitive.
pub proof fn law_version_order_transitive(a: VersionModel, b: VersionModel, c: VersionModel)
    requires
        version_order(a, b) == Order::Less,
        version_order(b, c) == Order::Less,
    ensures
        version_order(a, c) == Order::Less,
{
    let (pa, pb, pc) = (split(a.pre, '.'), split(b.pre, '.'), split(c.pre, '.'));
    let (ba, bb, bc) = (split(a.build, '.'), split(b.build, '.'), split(c.build, '.'));
    lemma_series_order(pa, pb);
    lemma_series_order(pb, pc);
    lemma_series_order(ba, bb);
    lemma_series_order(bb, bc);
    if series_order(pa, pb) == Order::Less && series_order(pb, pc) == Order::Less {
        lemma_series_order_transitive(pa, pb, pc);
    }
    if series_order(ba, bb) == Order::Less && series_order(bb, bc) == Order::Less {
        lemma_series_order_transitive(ba, bb, bc);
    }
}

/// Two version texts compare as equal exactly where they are the same text,
/// and exchanging them reverses the order.
pub proof fn law_versions_order(local: Seq<char>, published: Seq<char>)
    ensures
        versions_order(local, published) == Order::Equal <==> local == published,
        versions_order(published, local) == versions_order(local, published).reversed(),
{
    law_text_order(local, published);
    law_text_order(published, local);
    if let (Some(a), Some(b)) = (spelled(local), spelled(published)) {
        law_version_order(a, b);
    }
}

/// A pre-release comes before its release.
pub proof fn law_pre_release_before_release(pre: VersionModel, release: VersionModel)
    requires
        pre.major == release.major,
        pre.minor == release.minor,
        pre.patch == release.patch,
        pre.pre.len() > 0,
        release.pre.len() == 0,
    ensures
        version_order(pre, release) == Order::Less,
{
}

/// Two version texts compare by their numbers, the major one first, then the
/// minor one, then that of the patch: the first that differs decides, whatever
/// the later parts are.
pub proof fn law_compare_by_numbers(a: VersionModel, b: VersionModel)
    requires
        a.valid(),
        b.valid(),
    ensures
        a.major < b.major || (a.major == b.major && (a.minor < b.minor || (a.minor == b.minor
            && a.patch < b.patch))) ==> {
            &&& std_order(versions_order(a.text(), b.text())) == Ordering::Less
            &&& std_order(versions_order(b.text(), a.text())) == Ordering::Greater
        },
{
    lemma_spelled(a, a.text());
    lemma_spelled(b, b.text());
}

/// Only where all three numbers agree does the pre-release decide: a release
/// comes after its pre-releases, and two pre-releases compare identifier by
/// identifier. Only where those agree too does the build metadata decide.
pub proof fn law_compare_by_suffixes(a: VersionModel, b: VersionModel)
    requires
        a.valid(),
        b.valid(),
        a.major == b.major,
        a.minor == b.minor,
        a.patch == b.patch,
    ensures
        ({
            let r = std_order(versions_order(a.text(), b.text()));
            &&& a.pre.len() > 0 && b.pre.len() == 0 ==> r == Ordering::Less
            &&& a.pre.len() == 0 && b.pre.len() > 0 ==> r == Ordering::Greater
            &&& a.pre.len() > 0 && b.pre.len() > 0 && a.pre != b.pre ==> r == std_order(
                series_order(split(a.pre, '.'), split(b.pre, '.')),
            )
            &&& a.pre == b.pre && a.build.len() == 0 && b.build.len() > 0 ==> r == Ordering::Less
            &&& a.pre == b.pre && a.build.len() > 0 && b.build.len() == 0 ==> r
                == Ordering::Greater
            &&& a.pre == b.pre ==> r == std_order(
                series_order(split(a.build, '.'), split(b.build, '.')),
            )
            &&& a.pre == b.pre && a.build == b.build ==> r == Ordering::Equal
        }),
{
    lemma_spelled(a, a.text());
    lemma_spelled(b, b.text());
    lemma_series_order(split(a.pre, '.'), split(b.pre, '.'));
    lemma_series_order(split(a.build, '.'), split(b.build, '.'));
    lemma_split_injective(a.pre, b.pre, '.');
    if a.build.len() == 0 && b.build.len() > 0 {
        lemma_build_order(b.build);
    }
    if b.build.len() == 0 && a.build.len() > 0 {
        lemma_build_order(a.build);
        lemma_series_order(split(b.build, '.'), split(a.build, '.'));
        assert(b.build =~= Seq::empty());
    }
    if a.build.len() == 0 {
        assert(a.build =~= Seq::empty());
    }
}

/// No build metadata comes before any.
proof fn lemma_build_order(build: Seq<char>)
    requires
        build.len() > 0,
        valid_series(build, true),
    ensures
        series_order(split(Seq::empty(), '.'), split(build, '.')) == Order::Less,
{
    let none = Seq::<char>::empty();
    lemma_position(none, '.');
    assert(split(none, '.') =~= seq![none]);
    lemma_split_nonempty(build, '.');
    let first = split(build, '.')[0];
    assert(first.len() > 0);
    if numeric(first) {
        lemma_numeral_not_negative(first);
        assert(numeral_value(none) == 0);
    }
    assert(identifier_order(none, first) == Order::Less);
}

proof fn lemma_numeral_not_negative(s: Seq<char>)
    requires
        numeric(s),
    ensures
        numeral_value(s) >= 0,
        s.len() > 0 && s[0] != '0' ==> numeral_value(s) > 0,
    decreases s.len(),
{
    if s.len() > 0 {
        let rest = s.drop_last();
        assert(is_digit(s[s.len() - 1]));
        assert forall|i: int| 0 <= i < rest.len() implies is_digit(#[trigger] rest[i]) by {
            assert(is_digit(s[i]));
        }
        lemma_numeral_not_negative(rest);
    }
}

/// Where one of two texts spells no version, they compare as texts.
pub proof fn law_compare_as_texts(local: Seq<char>, published: Seq<char>)
    requires
        (forall|v: VersionModel| v.valid() ==> #[trigger] v.text() != local) || (forall|
            v: VersionModel,
        |
            v.valid() ==> #[trigger] v.text() != published),
    ensures
        std_order(versions_order(local, published)) == std_order(text_order(local, published)),
        local == published ==> std_order(versions_order(local, published)) == Ordering::Equal,
        forall|k: int|
            0 <= k < local.len() && k < published.len() && local[k] < #[trigger] published[k] && (
            forall|i: int| 0 <= i < k ==> local[i] == published[i]) ==> std_order(
                versions_order(local, published),
            ) == Ordering::Less,
        forall|k: int|
            0 <= k < local.len() && k < published.len() && #[trigger] local[k] > published[k] && (
            forall|i: int| 0 <= i < k ==> local[i] == published[i]) ==> std_order(
                versions_order(local, published),
            ) == Ordering::Greater,
{
    law_text_order(local, published);
    assert forall|k: int|
        0 <= k < local.len() && k < published.len() && local[k] < #[trigger] published[k] && (
        forall|i: int| 0 <= i < k ==> local[i] == published[i]) implies text_order(
        local,
        published,
    ) == Order::Less by {
        law_text_order_first_difference(local, published, k);
    }
    assert forall|k: int|
        0 <= k < local.len() && k < published.len() && #[trigger] local[k] > published[k] && (
        forall|i: int| 0 <= i < k ==> local[i] == published[i]) implies text_order(
        local,
        published,
    ) == Order::Greater by {
        law_text_order_first_difference(published, local, k);
    }
}

/// The first identifier in which two series differ decides their order; a
/// series comes before all longer ones that it starts.
pub proof fn law_series_order_first_difference(a: Seq<Seq<char>>, b: Seq<Seq<char>>, k: int)
    requires
        0 <= k <= a.len(),
        k < b.len(),
        forall|i: int| 0 <= i < k ==> a[i] == b[i],
        k < a.len() ==> a[k] != b[k],
    ensures
        k < a.len() ==> series_order(a, b) == identifier_order(a[k], b[k]),
        k == a.len() ==> series_order(a, b) == Order::Less,
        k == a.len() ==> series_order(b, a) == Order::Greater,
    decreases k,
{
    if k > 0 {
        assert(a[0] == b[0]);
        lemma_identifier_order(a[0], b[0]);
        lemma_identifier_order(b[0], a[0]);
        law_series_order_first_difference(a.drop_first(), b.drop_first(), k - 1);
    } else if a.len() > 0 {
        lemma_identifier_order(a[0], b[0]);
    }
}

proof fn lemma_numeral_first_difference(a: Seq<char>, b: Seq<char>, k: int)
    requires
        numeric(a),
        numeric(b),
        a.len() == b.len(),
        0 <= k < a.len(),
        forall|i: int| 0 <= i < k ==> a[i] == b[i],
        a[k] < b[k],
    ensures
        numeral_value(a) < numeral_value(b),
    decreases a.len(),
{
    let x = a.drop_last();
    let y = b.drop_last();
    assert(is_digit(a[a.len() - 1]));
    assert(is_digit(b[b.len() - 1]));
    if k == a.len() - 1 {
        assert(x =~= y);
    } else {
        assert forall|i: int| 0 <= i < x.len() implies is_digit(#[trigger] x[i]) by {
            assert(is_digit(a[i]));
        }
        assert forall|i: int| 0 <= i < y.len() implies is_digit(#[trigger] y[i]) by {
            assert(is_digit(b[i]));
        }
        lemma_numeral_first_difference(x, y, k);
    }
}

proof fn lemma_longer_numeral(a: Seq<char>, b: Seq<char>)
    requires
        numeric(a),
        numeric(b),
        a.len() < b.len(),
        b[0] != '0',
    ensures
        numeral_value(a) < numeral_value(b),
    decreases a.len(),
{
    lemma_numeral_not_negative(b);
    if a.len() > 0 {
        let x = a.drop_last();
        let y = b.drop_last();
        assert(is_digit(a[a.len() - 1]));
        assert(is_digit(b[b.len() - 1]));
        assert forall|i: int| 0 <= i < x.len() implies is_digit(#[trigger] x[i]) by {
            assert(is_digit(a[i]));
        }
        assert forall|i: int| 0 <= i < y.len() implies is_digit(#[trigger] y[i]) by {
            assert(is_digit(b[i]));
        }
        lemma_longer_numeral(x, y);
    }
}

proof fn lemma_leading_zero(s: Seq<char>)
    requires
        numeric(s),
    ensures
        numeric(seq!['0'] + s),
        numeral_value(seq!['0'] + s) == numeral_value(s),
    decreases s.len(),
{
    let z = seq!['0'] + s;
    assert forall|i: int| 0 <= i < z.len() implies is_digit(#[trigger] z[i]) by {
        if i > 0 {
            assert(is_digit(s[i - 1]));
        }
    }
    if s.len() == 0 {
        assert(z.drop_last() =~= s);
    } else {
        let rest = s.drop_last();
        assert forall|i: int| 0 <= i < rest.len() implies is_digit(#[trigger] rest[i]) by {
            assert(is_digit(s[i]));
        }
        lemma_leading_zero(rest);
        assert(z.drop_last() =~= seq!['0'] + rest);
    }
}

/// Identifiers of digits alone compare as numbers: among those of one length
/// the first digit that differs decides, a longer one without a leading zero
/// is greater, and a leading zero counts only where the numbers are the same.
pub proof fn law_numeric_identifiers(a: Seq<char>, b: Seq<char>)
    requires
        forall|i: int| 0 <= i < a.len() ==> '0' <= #[trigger] a[i] <= '9',
        forall|i: int| 0 <= i < b.len() ==> '0' <= #[trigger] b[i] <= '9',
    ensures
        a.len() < b.len() && b[0] != '0' ==> {
            &&& identifier_order(a, b) == Order::Less
            &&& identifier_order(b, a) == Order::Greater
        },
        a.len() == b.len() ==> forall|k: int|
            0 <= k < a.len() && #[trigger] a[k] < b[k] && (forall|i: int|
                0 <= i < k ==> a[i] == b[i]) ==> {
                &&& identifier_order(a, b) == Order::Less
                &&& identifier_order(b, a) == Order::Greater
            },
        identifier_order(a, seq!['0'] + a) == Order::Less,
        a.len() == b.len() && a != b ==> identifier_order(a, seq!['0'] + b) == identifier_order(
            a,
            b,
        ),
{
    assert(numeric(a));
    assert(numeric(b));
    lemma_leading_zero(a);
    lemma_leading_zero(b);
    if a.len() < b.len() && b[0] != '0' {
        lemma_longer_numeral(a, b);
    }
    if a.len() == b.len() {
        if numeral_value(a) == numeral_value(b) {
            lemma_numeral_value_injective(a, b);
        }
        assert forall|k: int|
            0 <= k < a.len() && #[trigger] a[k] < b[k] && (forall|i: int|
                0 <= i < k ==> a[i] == b[i]) implies numeral_value(a) < numeral_value(b) by {
            lemma_numeral_first_difference(a, b, k);
        }
    }
}

/// An identifier of digits alone comes before any that holds another
/// character, and two that do compare as texts: the first character in which
/// they differ decides, and one comes before all longer ones that it starts.
pub proof fn law_other_identifiers(a: Seq<char>, b: Seq<char>, k: int)
    requires
        exists|i: int| 0 <= i < b.len() && !('0' <= #[trigger] b[i] <= '9'),
    ensures
        (forall|i: int| 0 <= i < a.len() ==> '0' <= #[trigger] a[i] <= '9') ==> {
            &&& identifier_order(a, b) == Order::Less
            &&& identifier_order(b, a) == Order::Greater
        },
        (exists|i: int| 0 <= i < a.len() && !('0' <= #[trigger] a[i] <= '9')) && 0 <= k <= a.len()
            && k < b.len() && (forall|i: int| 0 <= i < k ==> a[i] == b[i]) && (k == a.len() || a[k]
            < b[k]) ==> {
            &&& identifier_order(a, b) == Order::Less
            &&& identifier_order(b, a) == Order::Greater
        },
{
    let j = choose|i: int| 0 <= i < b.len() && !('0' <= #[trigger] b[i] <= '9');
    assert(!is_digit(b[j]));
    if exists|i: int| 0 <= i < a.len() && !('0' <= #[trigger] a[i] <= '9') {
        let i = choose|i: int| 0 <= i < a.len() && !('0' <= #[trigger] a[i] <= '9');
        assert(!is_digit(a[i]));
        if 0 <= k <= a.len() && k < b.len() && (forall|i: int| 0 <= i < k ==> a[i] == b[i]) {
            if k == a.len() {
                let more = b.skip(k);
                assert(b =~= a + more);
                law_text_order_prefix(a, more);
            } else if a[k] < b[k] {
                law_text_order_first_difference(a, b, k);
            }
        }
    }
}

} // verus!
