//! Repository metadata (`maven-metadata.xml`): the version index of an artifact, or the
//! snapshot table of one snapshot version directory.
//!
//! The reader walks the document's tokens once, keeping the path of open elements. Values are
//! taken from the character data of the elements at the positions of the metadata schema
//! (`metadata/groupId`, `metadata/versioning/latest`, ...); every other element, at any depth,
//! is passed over. Scalars keep the last value seen, sequences collect in document order.
use vstd::prelude::*;

use crate::artifact::opt_view;
use crate::xml::{lemma_tag_names, at1, at2, at3, at4, below_root, element_tag, read_tokens, tag_of, xml_reading, tokens_view, Tag, TokenView, XmlToken};
use crate::{ArtifactId, Classifier, GroupId, Version};

verus! {

pub struct SnapshotView {
    pub timestamp: Seq<char>,
    pub build_number: i32,
}

pub struct SnapshotVersionView {
    pub classifier: Option<Seq<char>>,
    pub extension: Option<Seq<char>>,
    pub value: Seq<char>,
    pub updated: Seq<char>,
}

pub struct VersioningView {
    pub latest: Option<Seq<char>>,
    pub release: Option<Seq<char>>,
    pub versions: Option<Seq<Seq<char>>>,
    pub last_updated: Option<Seq<char>>,
    pub snapshot: Option<SnapshotView>,
    pub snapshot_versions: Option<Seq<SnapshotVersionView>>,
}

pub struct MetadataView {
    pub group_id: Seq<char>,
    pub artifact_id: Seq<char>,
    pub versioning: VersioningView,
}

pub open spec fn versions_view(v: Seq<Version>) -> Seq<Seq<char>> {
    v.map_values(|x: Version| x@)
}

pub open spec fn entries_view(v: Seq<SnapshotVersion>) -> Seq<SnapshotVersionView> {
    v.map_values(|x: SnapshotVersion| x@)
}

/// The timestamp and build number of the newest build in a snapshot directory.
#[allow(non_snake_case)]
#[derive(Debug, PartialEq, Eq)]
pub struct Snapshot {
    pub timestamp: String,
    pub buildNumber: i32,
}

impl View for Snapshot {
    type V = SnapshotView;

    open spec fn view(&self) -> SnapshotView {
        SnapshotView { timestamp: self.timestamp@, build_number: self.buildNumber }
    }
}

/// One file version available in a snapshot directory.
#[derive(Debug, PartialEq, Eq)]
pub struct SnapshotVersion {
    pub classifier: Option<Classifier>,
    pub extension: Option<String>,
    pub value: Version,
    pub updated: String,
}

impl View for SnapshotVersion {
    type V = SnapshotVersionView;

    open spec fn view(&self) -> SnapshotVersionView {
        SnapshotVersionView {
            classifier: opt_view(self.classifier),
            extension: opt_view(self.extension),
            value: self.value@,
            updated: self.updated@,
        }
    }
}

impl SnapshotVersion {
    pub fn new(value: Version, updated: String, classifier: Option<Classifier>, extension: Option<String>) -> (r: SnapshotVersion)
        ensures
            r == (SnapshotVersion { classifier, extension, value, updated }),
    {
        SnapshotVersion { value, updated, classifier, extension }
    }
}

/// The `versioning` block: pointers, the version list and the snapshot table.
#[derive(Debug, PartialEq, Eq, Default)]
pub struct Versioning {
    pub latest: Option<Version>,
    pub release: Option<Version>,
    pub versions: Option<Vec<Version>>,
    pub last_updated: Option<String>,
    pub snapshot: Option<Snapshot>,
    pub snapshot_versions: Option<Vec<SnapshotVersion>>,
}

impl View for Versioning {
    type V = VersioningView;

    open spec fn view(&self) -> VersioningView {
        VersioningView {
            latest: opt_view(self.latest),
            release: opt_view(self.release),
            versions: match self.versions {
                Some(v) => Some(versions_view(v@)),
                None => None,
            },
            last_updated: opt_view(self.last_updated),
            snapshot: opt_view(self.snapshot),
            snapshot_versions: match self.snapshot_versions {
                Some(v) => Some(entries_view(v@)),
                None => None,
            },
        }
    }
}

/// A parsed `maven-metadata.xml`.
#[derive(Debug, PartialEq, Eq)]
pub struct VersionedMetadata {
    pub group_id: GroupId,
    pub artifact_id: ArtifactId,
    pub versioning: Versioning,
}

impl View for VersionedMetadata {
    type V = MetadataView;

    open spec fn view(&self) -> MetadataView {
        MetadataView { group_id: self.group_id@, artifact_id: self.artifact_id@, versioning: self.versioning@ }
    }
}

/// Why a metadata document could not be read.
#[derive(Debug)]
pub enum MetadataError {
    /// The document is not well-formed XML.
    Xml(xml::reader::Error),
    /// The document is XML but misses what the metadata schema requires.
    Unexpected(String),
}

// ---------------------------------------------------------------------------------------------
// Integers
pub open spec fn is_digit(c: char) -> bool {
    '0' <= c && c <= '9'
}

pub open spec fn digits_value(s: Seq<char>) -> int
    decreases s.len(),
{
    if s.len() == 0 {
        0
    } else {
        digits_value(s.drop_last()) * 10 + (s.last() as int - '0' as int)
    }
}

pub open spec fn all_digits(d: Seq<char>) -> bool {
    forall|i: int| 0 <= i < d.len() ==> is_digit(#[trigger] d[i])
}

/// `s` without a leading `+` or `-`.
pub open spec fn unsigned_part(s: Seq<char>) -> Seq<char> {
    if s.len() > 0 && (s[0] == '-' || s[0] == '+') {
        s.drop_first()
    } else {
        s
    }
}

/// What `i32`'s `FromStr` accepts: an optional sign, then one or more ASCII digits, whose
/// value lies in range.
pub open spec fn parse_i32_spec(s: Seq<char>) -> Option<i32> {
    let d = unsigned_part(s);
    let v = if s.len() > 0 && s[0] == '-' {
        -digits_value(d)
    } else {
        digits_value(d)
    };
    if d.len() == 0 || !all_digits(d) {
        None
    } else if i32::MIN <= v && v <= i32::MAX {
        Some(v as i32)
    } else {
        None
    }
}

/// Reads a decimal `i32`.
pub fn parse_i32(s: &str) -> (r: Option<i32>)
    ensures
        r == parse_i32_spec(s@),
{
    let n = s.unicode_len();
    if n == 0 {
        return None;
    }
    let first = s.get_char(0);
    let start: usize = if first == '-' || first == '+' {
        1
    } else {
        0
    };
    let ghost d = s@.subrange(start as int, n as int);
    assert(d =~= unsigned_part(s@));
    if start == n {
        return None;
    }
    let cap: i64 = 2147483649;
    let mut acc: i64 = 0;
    let mut i: usize = start;
    assert(s@.subrange(start as int, start as int) =~= Seq::<char>::empty());
    while i < n
        invariant
            n == s@.len(),
            start <= i <= n,
            d == s@.subrange(start as int, n as int),
            d == unsigned_part(s@),
            first == s@[0],
            forall|j: int| 0 <= j < i - start ==> is_digit(#[trigger] d[j]),
            digits_value(s@.subrange(start as int, i as int)) >= 0,
            acc as int == if digits_value(s@.subrange(start as int, i as int)) < cap {
                digits_value(s@.subrange(start as int, i as int))
            } else {
                cap as int
            },
            cap == 2147483649,
        decreases n - i,
    {
        let c = s.get_char(i);
        if !('0' <= c && c <= '9') {
            assert(d[i - start] == c);
            assert(!is_digit(d[i - start]));
            assert(!all_digits(d));
            return None;
        }
        let ghost pre = s@.subrange(start as int, i as int);
        assert(s@.subrange(start as int, i + 1) == pre.push(c));
        assert(s@.subrange(start as int, i + 1).drop_last() == pre);
        let next: i64 = acc * 10 + ((c as u32) - ('0' as u32)) as i64;
        acc = if next > cap {
            cap
        } else {
            next
        };
        i = i + 1;
    }
    assert(s@.subrange(start as int, n as int) == d);
    if first == '-' {
        if acc <= 2147483648 {
            Some((0 - acc) as i32)
        } else {
            None
        }
    } else {
        if acc <= 2147483647 {
            Some(acc as i32)
        } else {
            None
        }
    }
}

pub open spec fn digit_char(d: nat) -> char {
    ((48 + d) as u8) as char
}

/// The decimal digits of `n`.
pub open spec fn decimal(n: nat) -> Seq<char>
    decreases n,
{
    if n < 10 {
        seq![digit_char(n)]
    } else {
        decimal(n / 10) + seq![digit_char(n % 10)]
    }
}

/// The decimal form of `n`, with a `-` where it is negative.
pub open spec fn int_text(n: int) -> Seq<char> {
    if n < 0 {
        seq!['-'] + decimal((-n) as nat)
    } else {
        decimal(n as nat)
    }
}

fn decimal_text(n: u64) -> (r: String)
    ensures
        r@ == decimal(n as nat),
    decreases n,
{
    proof {
        reveal_strlit("0123456789");
    }
    let digits = "0123456789";
    if n < 10 {
        let d = n as usize;
        let r = String::from_str(digits.substring_char(d, d + 1));
        assert(r@ =~= seq![digit_char(n as nat)]);
        r
    } else {
        let mut r = decimal_text(n / 10);
        let d = (n % 10) as usize;
        r.append(digits.substring_char(d, d + 1));
        assert(digits@.subrange(d as int, d + 1) =~= seq![digit_char((n % 10) as nat)]);
        r
    }
}

/// The decimal form of `n`.
pub fn int_to_text(n: i32) -> (r: String)
    ensures
        r@ == int_text(n as int),
{
    if n < 0 {
        let m: i64 = 0 - (n as i64);
        let mut r = String::from_str("-");
        let digits = decimal_text(m as u64);
        r.append(digits.as_str());
        proof {
            reveal_strlit("-");
        }
        r
    } else {
        decimal_text(n as u64)
    }
}


proof fn lemma_digit_char(d: nat)
    requires
        d < 10,
    ensures
        digit_char(d) as int == 48 + d,
        is_digit(digit_char(d)),
{
}

proof fn lemma_decimal(n: nat)
    ensures
        decimal(n).len() > 0,
        all_digits(decimal(n)),
        digits_value(decimal(n)) == n,
    decreases n,
{
    if n < 10 {
        lemma_digit_char(n);
        assert('0' as int == 48);
        assert(decimal(n).drop_last() =~= Seq::<char>::empty());
        assert(decimal(n).last() == digit_char(n));
        assert(digits_value(decimal(n)) == digits_value(Seq::<char>::empty()) * 10 + (digit_char(n) as int - '0' as int));
    } else {
        lemma_decimal(n / 10);
        lemma_digit_char(n % 10);
        let d = decimal(n / 10);
        let c = digit_char(n % 10);
        assert(decimal(n) == d.push(c));
        assert(decimal(n).drop_last() == d);
        vstd::arithmetic::div_mod::lemma_fundamental_div_mod(n as int, 10);
        assert('0' as int == 48);
        assert(decimal(n).last() == c);
        assert(digits_value(decimal(n)) == digits_value(d) * 10 + (c as int - '0' as int));
        assert(all_digits(decimal(n))) by {
            assert forall|i: int| 0 <= i < decimal(n).len() implies is_digit(#[trigger] decimal(n)[i]) by {
                if i < d.len() {
                    assert(decimal(n)[i] == d[i]);
                }
            }
        }
    }
}

/// Reading back the decimal form of an `i32` gives it again.
pub proof fn lemma_int_text_parses(b: i32)
    ensures
        parse_i32_spec(int_text(b as int)) == Some(b),
{
    let n: int = b as int;
    if n < 0 {
        let m = (-n) as nat;
        lemma_decimal(m);
        let t = int_text(n);
        assert(t.drop_first() =~= decimal(m));
        assert(unsigned_part(t) == decimal(m));
    } else {
        lemma_decimal(n as nat);
        assert(is_digit(decimal(n as nat)[0]));
    }
}

// ---------------------------------------------------------------------------------------------
// The reader's state machine
pub struct EntryDraft {
    pub value: Option<Seq<char>>,
    pub updated: Option<Seq<char>>,
    pub classifier: Option<Seq<char>>,
    pub extension: Option<Seq<char>>,
}

/// What the reader holds between two tokens.
pub struct MetaState {
    pub path: Seq<Tag>,
    pub text: Seq<char>,
    pub group_id: Option<Seq<char>>,
    pub artifact_id: Option<Seq<char>>,
    pub has_versioning: bool,
    pub versioning: VersioningView,
    pub timestamp: Option<Seq<char>>,
    pub build_number: Option<i32>,
    pub entry: EntryDraft,
}

pub open spec fn or_empty<T>(o: Option<Seq<T>>) -> Seq<T> {
    match o {
        Some(s) => s,
        None => Seq::empty(),
    }
}

/// An element has opened; `s.path` ends with it.
pub open spec fn meta_start(s: MetaState) -> MetaState {
    let p = s.path;
    if below_root(p, seq![Tag::Versioning]) {
        MetaState { has_versioning: true, ..s }
    } else if below_root(p, seq![Tag::Versioning, Tag::Versions]) {
        MetaState { versioning: VersioningView { versions: Some(or_empty(s.versioning.versions)), ..s.versioning }, ..s }
    } else if below_root(p, seq![Tag::Versioning, Tag::Snapshot]) {
        MetaState { timestamp: None, build_number: None, ..s }
    } else if below_root(p, seq![Tag::Versioning, Tag::SnapshotVersions]) {
        MetaState {
            versioning: VersioningView { snapshot_versions: Some(or_empty(s.versioning.snapshot_versions)), ..s.versioning },
            ..s
        }
    } else if below_root(p, seq![Tag::Versioning, Tag::SnapshotVersions, Tag::SnapshotVersion]) {
        MetaState { entry: EntryDraft { value: None, updated: None, classifier: None, extension: None }, ..s }
    } else {
        s
    }
}

pub open spec fn entry_path(last: Tag) -> Seq<Tag> {
    seq![Tag::Versioning, Tag::SnapshotVersions, Tag::SnapshotVersion, last]
}

/// An element closes; `s.path` still ends with it and `s.text` holds its character data.
pub open spec fn meta_end(s: MetaState) -> Option<MetaState> {
    let p = s.path;
    let t = s.text;
    let v = s.versioning;
    let e = s.entry;
    if below_root(p, seq![Tag::GroupId]) {
        Some(MetaState { group_id: Some(t), ..s })
    } else if below_root(p, seq![Tag::ArtifactId]) {
        Some(MetaState { artifact_id: Some(t), ..s })
    } else if below_root(p, seq![Tag::Versioning, Tag::Latest]) {
        Some(MetaState { versioning: VersioningView { latest: Some(t), ..v }, ..s })
    } else if below_root(p, seq![Tag::Versioning, Tag::Release]) {
        Some(MetaState { versioning: VersioningView { release: Some(t), ..v }, ..s })
    } else if below_root(p, seq![Tag::Versioning, Tag::LastUpdated]) {
        Some(MetaState { versioning: VersioningView { last_updated: Some(t), ..v }, ..s })
    } else if below_root(p, seq![Tag::Versioning, Tag::Versions, Tag::Version]) {
        Some(MetaState { versioning: VersioningView { versions: Some(or_empty(v.versions).push(t)), ..v }, ..s })
    } else if below_root(p, seq![Tag::Versioning, Tag::Snapshot, Tag::Timestamp]) {
        Some(MetaState { timestamp: Some(t), ..s })
    } else if below_root(p, seq![Tag::Versioning, Tag::Snapshot, Tag::BuildNumber]) {
        match parse_i32_spec(t) {
            Some(b) => Some(MetaState { build_number: Some(b), ..s }),
            None => None,
        }
    } else if below_root(p, seq![Tag::Versioning, Tag::Snapshot]) {
        match (s.timestamp, s.build_number) {
            (Some(ts), Some(b)) => Some(
                MetaState {
                    versioning: VersioningView { snapshot: Some(SnapshotView { timestamp: ts, build_number: b }), ..v },
                    ..s
                },
            ),
            _ => None,
        }
    } else if below_root(p, entry_path(Tag::Value)) {
        Some(MetaState { entry: EntryDraft { value: Some(t), ..e }, ..s })
    } else if below_root(p, entry_path(Tag::Updated)) {
        Some(MetaState { entry: EntryDraft { updated: Some(t), ..e }, ..s })
    } else if below_root(p, entry_path(Tag::Classifier)) {
        Some(MetaState { entry: EntryDraft { classifier: Some(t), ..e }, ..s })
    } else if below_root(p, entry_path(Tag::Extension)) {
        Some(MetaState { entry: EntryDraft { extension: Some(t), ..e }, ..s })
    } else if below_root(p, seq![Tag::Versioning, Tag::SnapshotVersions, Tag::SnapshotVersion]) {
        match (e.value, e.updated) {
            (Some(val), Some(up)) => Some(
                MetaState {
                    versioning: VersioningView {
                        snapshot_versions: Some(
                            or_empty(v.snapshot_versions).push(
                                SnapshotVersionView { classifier: e.classifier, extension: e.extension, value: val, updated: up },
                            ),
                        ),
                        ..v
                    },
                    ..s
                },
            ),
            _ => None,
        }
    } else {
        Some(s)
    }
}

pub open spec fn pop_path<T>(p: Seq<T>) -> Seq<T> {
    if p.len() > 0 {
        p.drop_last()
    } else {
        p
    }
}

/// One token; `None` where the document breaks the schema.
pub open spec fn meta_step(s: MetaState, tok: TokenView) -> Option<MetaState> {
    match tok {
        TokenView::Start(n) => Some(meta_start(MetaState { path: s.path.push(element_tag(n)), text: Seq::empty(), ..s })),
        TokenView::End(_) => match meta_end(s) {
            Some(s2) => Some(MetaState { path: pop_path(s2.path), text: Seq::empty(), ..s2 }),
            None => None,
        },
        TokenView::Text(x) => Some(MetaState { text: s.text + x, ..s }),
        TokenView::Other => Some(s),
    }
}

pub open spec fn meta_run(t: Seq<TokenView>, i: int, s: MetaState) -> Option<MetaState>
    decreases t.len() - i,
{
    if i >= t.len() {
        Some(s)
    } else {
        match meta_step(s, t[i]) {
            Some(s2) => meta_run(t, i + 1, s2),
            None => None,
        }
    }
}

pub open spec fn meta_initial() -> MetaState {
    MetaState {
        path: Seq::empty(),
        text: Seq::empty(),
        group_id: None,
        artifact_id: None,
        has_versioning: false,
        versioning: VersioningView {
            latest: None,
            release: None,
            versions: None,
            last_updated: None,
            snapshot: None,
            snapshot_versions: None,
        },
        timestamp: None,
        build_number: None,
        entry: EntryDraft { value: None, updated: None, classifier: None, extension: None },
    }
}

/// At the end of the document: `groupId`, `artifactId` and `versioning` are required.
pub open spec fn meta_finish(s: MetaState) -> Option<MetadataView> {
    match (s.group_id, s.artifact_id) {
        (Some(g), Some(a)) => if s.has_versioning {
            Some(MetadataView { group_id: g, artifact_id: a, versioning: s.versioning })
        } else {
            None
        },
        _ => None,
    }
}

/// The metadata record that a token sequence describes, or `None` where it breaks the schema.
pub open spec fn metadata_from_tokens(t: Seq<TokenView>) -> Option<MetadataView> {
    match meta_run(t, 0, meta_initial()) {
        Some(s) => meta_finish(s),
        None => None,
    }
}

struct MetaReader {
    path: Vec<Tag>,
    text: String,
    group_id: Option<String>,
    artifact_id: Option<String>,
    has_versioning: bool,
    versioning: Versioning,
    timestamp: Option<String>,
    build_number: Option<i32>,
    value: Option<String>,
    updated: Option<String>,
    classifier: Option<String>,
    extension: Option<String>,
}

impl View for MetaReader {
    type V = MetaState;

    closed spec fn view(&self) -> MetaState {
        MetaState {
            path: self.path@,
            text: self.text@,
            group_id: opt_view(self.group_id),
            artifact_id: opt_view(self.artifact_id),
            has_versioning: self.has_versioning,
            versioning: self.versioning@,
            timestamp: opt_view(self.timestamp),
            build_number: self.build_number,
            entry: EntryDraft {
                value: opt_view(self.value),
                updated: opt_view(self.updated),
                classifier: opt_view(self.classifier),
                extension: opt_view(self.extension),
            },
        }
    }
}

impl MetaReader {
    fn new() -> (r: MetaReader)
        ensures
            r@ == meta_initial(),
    {
        MetaReader {
            path: Vec::new(),
            text: String::new(),
            group_id: None,
            artifact_id: None,
            has_versioning: false,
            versioning: Versioning {
                latest: None,
                release: None,
                versions: None,
                last_updated: None,
                snapshot: None,
                snapshot_versions: None,
            },
            timestamp: None,
            build_number: None,
            value: None,
            updated: None,
            classifier: None,
            extension: None,
        }
    }

    fn on_start(&mut self)
        ensures
            final(self)@ == meta_start(old(self)@),
    {
        if at1(&self.path, Tag::Versioning) {
            self.has_versioning = true;
        } else if at2(&self.path, Tag::Versioning, Tag::Versions) {
            if self.versioning.versions.is_none() {
                self.versioning.versions = Some(Vec::new());
                assert(versions_view(Seq::<Version>::empty()) =~= Seq::<Seq<char>>::empty());
            }
        } else if at2(&self.path, Tag::Versioning, Tag::Snapshot) {
            self.timestamp = None;
            self.build_number = None;
        } else if at2(&self.path, Tag::Versioning, Tag::SnapshotVersions) {
            if self.versioning.snapshot_versions.is_none() {
                self.versioning.snapshot_versions = Some(Vec::new());
                assert(entries_view(Seq::<SnapshotVersion>::empty()) =~= Seq::<SnapshotVersionView>::empty());
            }
        } else if at3(&self.path, Tag::Versioning, Tag::SnapshotVersions, Tag::SnapshotVersion) {
            self.value = None;
            self.updated = None;
            self.classifier = None;
            self.extension = None;
        }
    }

    fn on_end(&mut self) -> (ok: bool)
        ensures
            ok == meta_end(old(self)@) is Some,
            ok ==> final(self)@ == meta_end(old(self)@)->0,
    {
        let t = self.text.clone();
        if at1(&self.path, Tag::GroupId) {
            self.group_id = Some(t);
        } else if at1(&self.path, Tag::ArtifactId) {
            self.artifact_id = Some(t);
        } else if at2(&self.path, Tag::Versioning, Tag::Latest) {
            self.versioning.latest = Some(Version(t));
        } else if at2(&self.path, Tag::Versioning, Tag::Release) {
            self.versioning.release = Some(Version(t));
        } else if at2(&self.path, Tag::Versioning, Tag::LastUpdated) {
            self.versioning.last_updated = Some(t);
        } else if at3(&self.path, Tag::Versioning, Tag::Versions, Tag::Version) {
            let mut vs = match self.versioning.versions.take() {
                Some(vs) => vs,
                None => Vec::new(),
            };
            let ghost before = vs@;
            vs.push(Version(t));
            assert(versions_view(vs@) =~= versions_view(before).push(self.text@));
            assert(versions_view(Seq::<Version>::empty()) =~= Seq::<Seq<char>>::empty());
            self.versioning.versions = Some(vs);
        } else if at3(&self.path, Tag::Versioning, Tag::Snapshot, Tag::Timestamp) {
            self.timestamp = Some(t);
        } else if at3(&self.path, Tag::Versioning, Tag::Snapshot, Tag::BuildNumber) {
            match parse_i32(t.as_str()) {
                Some(b) => self.build_number = Some(b),
                None => return false,
            }
        } else if at2(&self.path, Tag::Versioning, Tag::Snapshot) {
            match (&self.timestamp, self.build_number) {
                (Some(ts), Some(b)) => {
                    self.versioning.snapshot = Some(Snapshot { timestamp: ts.clone(), buildNumber: b });
                },
                _ => return false,
            }
        } else if at4(&self.path, Tag::Versioning, Tag::SnapshotVersions, Tag::SnapshotVersion, Tag::Value) {
            self.value = Some(t);
        } else if at4(&self.path, Tag::Versioning, Tag::SnapshotVersions, Tag::SnapshotVersion, Tag::Updated) {
            self.updated = Some(t);
        } else if at4(&self.path, Tag::Versioning, Tag::SnapshotVersions, Tag::SnapshotVersion, Tag::Classifier) {
            self.classifier = Some(t);
        } else if at4(&self.path, Tag::Versioning, Tag::SnapshotVersions, Tag::SnapshotVersion, Tag::Extension) {
            self.extension = Some(t);
        } else if at3(&self.path, Tag::Versioning, Tag::SnapshotVersions, Tag::SnapshotVersion) {
            match (&self.value, &self.updated) {
                (Some(val), Some(up)) => {
                    let entry = SnapshotVersion {
                        classifier: match &self.classifier {
                            Some(c) => Some(Classifier(c.clone())),
                            None => None,
                        },
                        extension: match &self.extension {
                            Some(x) => Some(x.clone()),
                            None => None,
                        },
                        value: Version(val.clone()),
                        updated: up.clone(),
                    };
                    let mut es = match self.versioning.snapshot_versions.take() {
                        Some(es) => es,
                        None => Vec::new(),
                    };
                    let ghost before = es@;
                    let ghost ev = entry@;
                    es.push(entry);
                    assert(entries_view(es@) =~= entries_view(before).push(ev));
                    assert(entries_view(Seq::<SnapshotVersion>::empty()) =~= Seq::<SnapshotVersionView>::empty());
                    self.versioning.snapshot_versions = Some(es);
                },
                _ => return false,
            }
        }
        true
    }

    fn step(&mut self, tok: &XmlToken) -> (ok: bool)
        ensures
            ok == meta_step(old(self)@, tok@) is Some,
            ok ==> final(self)@ == meta_step(old(self)@, tok@)->0,
    {
        match tok {
            XmlToken::Start(n) => {
                let tag = tag_of(n.as_str());
                self.path.push(tag);
                self.text = String::new();
                self.on_start();
                true
            },
            XmlToken::End(_) => {
                if !self.on_end() {
                    return false;
                }
                if self.path.len() > 0 {
                    self.path.pop();
                }
                self.text = String::new();
                true
            },
            XmlToken::Text(x) => {
                self.text.append(x.as_str());
                true
            },
            XmlToken::Other => true,
        }
    }
}

impl VersionedMetadata {
    /// Reads the record from a token sequence.
    pub fn from_tokens(tokens: &Vec<XmlToken>) -> (r: Result<VersionedMetadata, MetadataError>)
        ensures
            match r {
                Ok(m) => metadata_from_tokens(tokens_view(tokens@)) == Some(m@),
                Err(e) => metadata_from_tokens(tokens_view(tokens@)) is None && e is Unexpected,
            },
    {
        let mut reader = MetaReader::new();
        let mut i: usize = 0;
        while i < tokens.len()
            invariant
                i <= tokens@.len(),
                meta_run(tokens_view(tokens@), i as int, reader@) == meta_run(tokens_view(tokens@), 0, meta_initial()),
            decreases tokens@.len() - i,
        {
            if !reader.step(&tokens[i]) {
                return Err(MetadataError::Unexpected(String::from_str("element breaks the metadata schema")));
            }
            i = i + 1;
        }
        match (reader.group_id, reader.artifact_id) {
            (Some(g), Some(a)) => {
                if reader.has_versioning {
                    Ok(VersionedMetadata { group_id: GroupId(g), artifact_id: ArtifactId(a), versioning: reader.versioning })
                } else {
                    Err(MetadataError::Unexpected(String::from_str("Missing versioning")))
                }
            },
            (None, _) => Err(MetadataError::Unexpected(String::from_str("Missing groupId"))),
            (_, None) => Err(MetadataError::Unexpected(String::from_str("Missing artifactId"))),
        }
    }

    /// Reads a `maven-metadata.xml` document.
    pub fn from_str(input: &str) -> (r: Result<VersionedMetadata, MetadataError>)
        ensures
            match r {
                Ok(m) => xml_reading(input@) matches Some(t) && metadata_from_tokens(t) == Some(m@),
                Err(MetadataError::Xml(_)) => xml_reading(input@) is None,
                Err(MetadataError::Unexpected(_)) => xml_reading(input@) matches Some(t) && metadata_from_tokens(t) is None,
            },
    {
        match read_tokens(input) {
            Ok(tokens) => Self::from_tokens(&tokens),
            Err(e) => Err(MetadataError::Xml(e)),
        }
    }
}


// ---------------------------------------------------------------------------------------------
// Reading back what a serializer writes
/// `<name>value</name>`.
pub open spec fn leaf(name: Seq<char>, value: Seq<char>) -> Seq<TokenView> {
    seq![TokenView::Start(name), TokenView::Text(value), TokenView::End(name)]
}

pub open spec fn opt_leaf(name: Seq<char>, value: Option<Seq<char>>) -> Seq<TokenView> {
    match value {
        Some(v) => leaf(name, v),
        None => Seq::empty(),
    }
}

/// `<name>inner</name>`.
pub open spec fn block(name: Seq<char>, inner: Seq<TokenView>) -> Seq<TokenView> {
    seq![TokenView::Start(name)] + inner + seq![TokenView::End(name)]
}

proof fn lemma_run_shift(t: Seq<TokenView>, b: Seq<TokenView>, j: int, s: MetaState)
    requires
        0 <= j <= b.len(),
    ensures
        meta_run(t + b, t.len() + j, s) == meta_run(b, j, s),
    decreases b.len() - j,
{
    if j < b.len() {
        assert((t + b)[t.len() + j] == b[j]);
        match meta_step(s, b[j]) {
            Some(s2) => lemma_run_shift(t, b, j + 1, s2),
            None => {},
        }
    }
}

proof fn lemma_run_concat_from(a: Seq<TokenView>, b: Seq<TokenView>, i: int, s: MetaState)
    requires
        0 <= i <= a.len(),
    ensures
        meta_run(a + b, i, s) == match meta_run(a, i, s) {
            Some(s2) => meta_run(b, 0, s2),
            None => None,
        },
    decreases a.len() - i,
{
    if i == a.len() {
        lemma_run_shift(a, b, 0, s);
    } else {
        assert((a + b)[i] == a[i]);
        match meta_step(s, a[i]) {
            Some(s2) => lemma_run_concat_from(a, b, i + 1, s2),
            None => {},
        }
    }
}

/// Reading `a + b` reads `a`, then `b` from where `a` left off.
proof fn lemma_run_concat(a: Seq<TokenView>, b: Seq<TokenView>, s: MetaState)
    ensures
        meta_run(a + b, 0, s) == match meta_run(a, 0, s) {
            Some(s2) => meta_run(b, 0, s2),
            None => None,
        },
{
    lemma_run_concat_from(a, b, 0, s);
}

proof fn lemma_run_one(tok: TokenView, s: MetaState)
    ensures
        meta_run(seq![tok], 0, s) == meta_step(s, tok),
{
    match meta_step(s, tok) {
        Some(s2) => {
            assert(meta_run(seq![tok], 1, s2) == Some(s2));
        },
        None => {},
    }
}

proof fn lemma_run_empty(s: MetaState)
    ensures
        meta_run(Seq::empty(), 0, s) == Some(s),
{
}

proof fn lemma_run_leaf(name: Seq<char>, v: Seq<char>, s: MetaState)
    ensures
        meta_run(leaf(name, v), 0, s) == ({
            let s1 = meta_start(MetaState { path: s.path.push(element_tag(name)), text: Seq::empty(), ..s });
            match meta_end(MetaState { text: v, ..s1 }) {
                Some(s3) => Some(MetaState { path: pop_path(s3.path), text: Seq::empty(), ..s3 }),
                None => None,
            }
        }),
{
    let t = leaf(name, v);
    assert(t == seq![TokenView::Start(name)] + seq![TokenView::Text(v), TokenView::End(name)]);
    assert(seq![TokenView::Text(v), TokenView::End(name)] == seq![TokenView::Text(v)] + seq![TokenView::End(name)]);
    lemma_run_concat(seq![TokenView::Start(name)], seq![TokenView::Text(v), TokenView::End(name)], s);
    lemma_run_one(TokenView::Start(name), s);
    let s1 = meta_start(MetaState { path: s.path.push(element_tag(name)), text: Seq::empty(), ..s });
    lemma_run_concat(seq![TokenView::Text(v)], seq![TokenView::End(name)], s1);
    lemma_run_one(TokenView::Text(v), s1);
    assert(s1.text + v =~= v);
    lemma_run_one(TokenView::End(name), MetaState { text: v, ..s1 });
}

/// `<version>v</version>` for each of `vs`.
pub open spec fn version_tokens(vs: Seq<Seq<char>>) -> Seq<TokenView>
    decreases vs.len(),
{
    if vs.len() == 0 {
        Seq::empty()
    } else {
        version_tokens(vs.drop_last()) + leaf("version"@, vs.last())
    }
}

proof fn lemma_run_versions(vs: Seq<Seq<char>>, s: MetaState)
    requires
        s.path == seq![Tag::Unknown, Tag::Versioning, Tag::Versions],
        s.text == Seq::<char>::empty(),
        s.versioning.versions is Some,
    ensures
        meta_run(version_tokens(vs), 0, s) == Some(
            MetaState { versioning: VersioningView { versions: Some(s.versioning.versions->0 + vs), ..s.versioning }, ..s },
        ),
    decreases vs.len(),
{
    lemma_tag_names();
    let old_vs = s.versioning.versions->0;
    if vs.len() == 0 {
        assert(old_vs + vs =~= old_vs);
    } else {
        let pre = vs.drop_last();
        lemma_run_versions(pre, s);
        let s2 = MetaState { versioning: VersioningView { versions: Some(old_vs + pre), ..s.versioning }, ..s };
        lemma_run_concat(version_tokens(pre), leaf("version"@, vs.last()), s);
        lemma_run_leaf("version"@, vs.last(), s2);
        let p = s.path.push(Tag::Version);
        assert(p == seq![Tag::Unknown, Tag::Versioning, Tag::Versions, Tag::Version]);
        assert(pop_path(p) =~= s.path);
        assert((old_vs + pre).push(vs.last()) =~= old_vs + vs);
    }
}


proof fn lemma_run_block(name: Seq<char>, inner: Seq<TokenView>, s: MetaState)
    ensures
        meta_run(block(name, inner), 0, s) == ({
            let s1 = meta_start(MetaState { path: s.path.push(element_tag(name)), text: Seq::empty(), ..s });
            match meta_run(inner, 0, s1) {
                Some(s2) => meta_step(s2, TokenView::End(name)),
                None => None,
            }
        }),
{
    let start = seq![TokenView::Start(name)];
    let end = seq![TokenView::End(name)];
    lemma_run_concat(start + inner, end, s);
    lemma_run_concat(start, inner, s);
    lemma_run_one(TokenView::Start(name), s);
    let s1 = meta_start(MetaState { path: s.path.push(element_tag(name)), text: Seq::empty(), ..s });
    match meta_run(inner, 0, s1) {
        Some(s2) => lemma_run_one(TokenView::End(name), s2),
        None => {},
    }
}

/// The parts of the state that an element leaves as it found them, once it has closed.
pub open spec fn same_outer(s: MetaState, t: MetaState) -> bool {
    &&& t.path == s.path
    &&& t.text == s.text
    &&& t.group_id == s.group_id
    &&& t.artifact_id == s.artifact_id
    &&& t.has_versioning == s.has_versioning
}

/// One `snapshotVersion` element.
pub open spec fn entry_tokens(e: SnapshotVersionView) -> Seq<TokenView> {
    block(
        "snapshotVersion"@,
        opt_leaf("classifier"@, e.classifier) + opt_leaf("extension"@, e.extension) + leaf("value"@, e.value) + leaf(
            "updated"@,
            e.updated,
        ),
    )
}

pub open spec fn entries_tokens(es: Seq<SnapshotVersionView>) -> Seq<TokenView>
    decreases es.len(),
{
    if es.len() == 0 {
        Seq::empty()
    } else {
        entries_tokens(es.drop_last()) + entry_tokens(es.last())
    }
}

proof fn lemma_run_entry_field(name: Seq<char>, v: Option<Seq<char>>, s: MetaState)
    requires
        s.path == seq![Tag::Unknown, Tag::Versioning, Tag::SnapshotVersions, Tag::SnapshotVersion],
        s.text == Seq::<char>::empty(),
        name == "classifier"@ || name == "extension"@ || name == "value"@ || name == "updated"@,
    ensures
        meta_run(opt_leaf(name, v), 0, s) == Some(
            match v {
                Some(x) => MetaState {
                    entry: if name == "classifier"@ {
                        EntryDraft { classifier: Some(x), ..s.entry }
                    } else if name == "extension"@ {
                        EntryDraft { extension: Some(x), ..s.entry }
                    } else if name == "value"@ {
                        EntryDraft { value: Some(x), ..s.entry }
                    } else {
                        EntryDraft { updated: Some(x), ..s.entry }
                    },
                    ..s
                },
                None => s,
            },
        ),
{
    lemma_tag_names();
    match v {
        Some(x) => {
            lemma_run_leaf(name, x, s);
            let p = s.path.push(element_tag(name));
            assert(pop_path(p) =~= s.path);
        },
        None => lemma_run_empty(s),
    }
}

proof fn lemma_run_entry(e: SnapshotVersionView, s: MetaState)
    requires
        s.path == seq![Tag::Unknown, Tag::Versioning, Tag::SnapshotVersions],
        s.text == Seq::<char>::empty(),
        s.versioning.snapshot_versions is Some,
    ensures
        meta_run(entry_tokens(e), 0, s) matches Some(t) && same_outer(s, t) && t.versioning == (VersioningView {
            snapshot_versions: Some(s.versioning.snapshot_versions->0.push(e)),
            ..s.versioning
        }),
{
    lemma_tag_names();
    let c = opt_leaf("classifier"@, e.classifier);
    let x = opt_leaf("extension"@, e.extension);
    let v = leaf("value"@, e.value);
    let u = leaf("updated"@, e.updated);
    lemma_run_block("snapshotVersion"@, c + x + v + u, s);
    let s1 = meta_start(MetaState { path: s.path.push(Tag::SnapshotVersion), text: Seq::empty(), ..s });
    assert(s1.path == seq![Tag::Unknown, Tag::Versioning, Tag::SnapshotVersions, Tag::SnapshotVersion]);
    assert(s1.entry == EntryDraft { value: None, updated: None, classifier: None, extension: None });
    lemma_run_concat(c + x + v, u, s1);
    lemma_run_concat(c + x, v, s1);
    lemma_run_concat(c, x, s1);
    lemma_run_entry_field("classifier"@, e.classifier, s1);
    let s2 = meta_run(c, 0, s1)->0;
    lemma_run_entry_field("extension"@, e.extension, s2);
    let s3 = meta_run(x, 0, s2)->0;
    assert(opt_leaf("value"@, Some(e.value)) == v);
    lemma_run_entry_field("value"@, Some(e.value), s3);
    let s4 = meta_run(v, 0, s3)->0;
    assert(opt_leaf("updated"@, Some(e.updated)) == u);
    lemma_run_entry_field("updated"@, Some(e.updated), s4);
    let s5 = meta_run(u, 0, s4)->0;
    assert(s5.entry == EntryDraft { value: Some(e.value), updated: Some(e.updated), classifier: e.classifier, extension: e.extension });
    assert(pop_path(s5.path) =~= s.path);
}

proof fn lemma_run_entries(es: Seq<SnapshotVersionView>, s: MetaState)
    requires
        s.path == seq![Tag::Unknown, Tag::Versioning, Tag::SnapshotVersions],
        s.text == Seq::<char>::empty(),
        s.versioning.snapshot_versions is Some,
    ensures
        meta_run(entries_tokens(es), 0, s) matches Some(t) && same_outer(s, t) && t.versioning == (VersioningView {
            snapshot_versions: Some(s.versioning.snapshot_versions->0 + es),
            ..s.versioning
        }),
    decreases es.len(),
{
    let old_es = s.versioning.snapshot_versions->0;
    if es.len() == 0 {
        lemma_run_empty(s);
        assert(old_es + es =~= old_es);
    } else {
        let pre = es.drop_last();
        lemma_run_entries(pre, s);
        lemma_run_concat(entries_tokens(pre), entry_tokens(es.last()), s);
        let s2 = meta_run(entries_tokens(pre), 0, s)->0;
        lemma_run_entry(es.last(), s2);
        assert((old_es + pre).push(es.last()) =~= old_es + es);
    }
}


/// The `snapshot` element of `sn`.
pub open spec fn snapshot_tokens(sn: SnapshotView) -> Seq<TokenView> {
    block("snapshot"@, leaf("timestamp"@, sn.timestamp) + leaf("buildNumber"@, int_text(sn.build_number as int)))
}

proof fn lemma_run_snapshot(sn: SnapshotView, s: MetaState)
    requires
        s.path == seq![Tag::Unknown, Tag::Versioning],
        s.text == Seq::<char>::empty(),
    ensures
        meta_run(snapshot_tokens(sn), 0, s) matches Some(t) && same_outer(s, t) && t.versioning == (VersioningView {
            snapshot: Some(sn),
            ..s.versioning
        }),
{
    lemma_tag_names();
    lemma_int_text_parses(sn.build_number);
    let ts = leaf("timestamp"@, sn.timestamp);
    let bn = leaf("buildNumber"@, int_text(sn.build_number as int));
    lemma_run_block("snapshot"@, ts + bn, s);
    let s1 = meta_start(MetaState { path: s.path.push(Tag::Snapshot), text: Seq::empty(), ..s });
    assert(s1.path == seq![Tag::Unknown, Tag::Versioning, Tag::Snapshot]);
    lemma_run_concat(ts, bn, s1);
    lemma_run_leaf("timestamp"@, sn.timestamp, s1);
    assert(pop_path(s1.path.push(Tag::Timestamp)) =~= s1.path);
    let s2 = meta_run(ts, 0, s1)->0;
    assert(s2.timestamp == Some(sn.timestamp));
    lemma_run_leaf("buildNumber"@, int_text(sn.build_number as int), s2);
    assert(pop_path(s2.path.push(Tag::BuildNumber)) =~= s2.path);
    let s3 = meta_run(bn, 0, s2)->0;
    assert(s3.build_number == Some(sn.build_number));
    assert(s3.path == s1.path);
    assert(pop_path(s3.path) =~= s.path);
}

/// The `versions` element of `vs`.
pub open spec fn versions_tokens(vs: Seq<Seq<char>>) -> Seq<TokenView> {
    block("versions"@, version_tokens(vs))
}

/// The `snapshotVersions` element of `es`.
pub open spec fn snapshot_versions_tokens(es: Seq<SnapshotVersionView>) -> Seq<TokenView> {
    block("snapshotVersions"@, entries_tokens(es))
}

pub open spec fn opt_tokens<T>(o: Option<T>, f: spec_fn(T) -> Seq<TokenView>) -> Seq<TokenView> {
    match o {
        Some(x) => f(x),
        None => Seq::empty(),
    }
}

/// What a serializer writes inside `versioning`: each part that is present, in schema order.
pub open spec fn versioning_tokens(v: VersioningView) -> Seq<TokenView> {
    opt_leaf("latest"@, v.latest) + opt_leaf("release"@, v.release) + opt_tokens(v.versions, |vs| versions_tokens(vs))
        + opt_leaf("lastUpdated"@, v.last_updated) + opt_tokens(v.snapshot, |sn| snapshot_tokens(sn)) + opt_tokens(
        v.snapshot_versions,
        |es| snapshot_versions_tokens(es),
    )
}

/// What a serializer writes for `m`: `metadata` holding `groupId`, `artifactId` and `versioning`.
pub open spec fn metadata_tokens(m: MetadataView) -> Seq<TokenView> {
    block(
        "metadata"@,
        leaf("groupId"@, m.group_id) + leaf("artifactId"@, m.artifact_id) + block("versioning"@, versioning_tokens(m.versioning)),
    )
}

proof fn lemma_run_pointer(name: Seq<char>, tag: Tag, v: Option<Seq<char>>, s: MetaState)
    requires
        s.path == seq![Tag::Unknown, Tag::Versioning],
        s.text == Seq::<char>::empty(),
        element_tag(name) == tag,
        tag == Tag::Latest ==> s.versioning.latest is None,
        tag == Tag::Release ==> s.versioning.release is None,
        tag == Tag::LastUpdated ==> s.versioning.last_updated is None,
        tag == Tag::Latest || tag == Tag::Release || tag == Tag::LastUpdated,
    ensures
        meta_run(opt_leaf(name, v), 0, s) matches Some(t) && same_outer(s, t) && t.versioning == (if tag == Tag::Latest {
            VersioningView { latest: v, ..s.versioning }
        } else if tag == Tag::Release {
            VersioningView { release: v, ..s.versioning }
        } else {
            VersioningView { last_updated: v, ..s.versioning }
        }),
{
    match v {
        Some(x) => {
            lemma_run_leaf(name, x, s);
            assert(pop_path(s.path.push(tag)) =~= s.path);
        },
        None => lemma_run_empty(s),
    }
}

proof fn lemma_run_versions_part(o: Option<Seq<Seq<char>>>, s: MetaState)
    requires
        s.path == seq![Tag::Unknown, Tag::Versioning],
        s.text == Seq::<char>::empty(),
        s.versioning.versions is None,
    ensures
        meta_run(opt_tokens(o, |vs| versions_tokens(vs)), 0, s) matches Some(t) && same_outer(s, t) && t.versioning == (
        VersioningView { versions: o, ..s.versioning }),
{
    lemma_tag_names();
    match o {
        Some(vs) => {
            assert(opt_tokens(o, |vs| versions_tokens(vs)) == block("versions"@, version_tokens(vs)));
            lemma_run_block("versions"@, version_tokens(vs), s);
            let s1 = meta_start(MetaState { path: s.path.push(Tag::Versions), text: Seq::empty(), ..s });
            assert(s1.path == seq![Tag::Unknown, Tag::Versioning, Tag::Versions]);
            lemma_run_versions(vs, s1);
            assert(Seq::<Seq<char>>::empty() + vs =~= vs);
            assert(pop_path(s1.path) =~= s.path);
        },
        None => lemma_run_empty(s),
    }
}

proof fn lemma_run_snapshot_part(o: Option<SnapshotView>, s: MetaState)
    requires
        s.path == seq![Tag::Unknown, Tag::Versioning],
        s.text == Seq::<char>::empty(),
        s.versioning.snapshot is None,
    ensures
        meta_run(opt_tokens(o, |sn| snapshot_tokens(sn)), 0, s) matches Some(t) && same_outer(s, t) && t.versioning == (
        VersioningView { snapshot: o, ..s.versioning }),
{
    match o {
        Some(sn) => {
            assert(opt_tokens(o, |sn| snapshot_tokens(sn)) == snapshot_tokens(sn));
            lemma_run_snapshot(sn, s);
        },
        None => lemma_run_empty(s),
    }
}

proof fn lemma_run_entries_part(o: Option<Seq<SnapshotVersionView>>, s: MetaState)
    requires
        s.path == seq![Tag::Unknown, Tag::Versioning],
        s.text == Seq::<char>::empty(),
        s.versioning.snapshot_versions is None,
    ensures
        meta_run(opt_tokens(o, |es| snapshot_versions_tokens(es)), 0, s) matches Some(t) && same_outer(s, t)
            && t.versioning == (VersioningView { snapshot_versions: o, ..s.versioning }),
{
    lemma_tag_names();
    match o {
        Some(es) => {
            assert(opt_tokens(o, |es| snapshot_versions_tokens(es)) == block("snapshotVersions"@, entries_tokens(es)));
            lemma_run_block("snapshotVersions"@, entries_tokens(es), s);
            let s1 = meta_start(MetaState { path: s.path.push(Tag::SnapshotVersions), text: Seq::empty(), ..s });
            assert(s1.path == seq![Tag::Unknown, Tag::Versioning, Tag::SnapshotVersions]);
            lemma_run_entries(es, s1);
            assert(Seq::<SnapshotVersionView>::empty() + es =~= es);
            let s2 = meta_run(entries_tokens(es), 0, s1)->0;
            assert(pop_path(s2.path) =~= s.path);
        },
        None => lemma_run_empty(s),
    }
}

proof fn lemma_run_versioning(v: VersioningView, s: MetaState)
    requires
        s.path == seq![Tag::Unknown, Tag::Versioning],
        s.text == Seq::<char>::empty(),
        s.versioning == meta_initial().versioning,
    ensures
        meta_run(versioning_tokens(v), 0, s) matches Some(t) && same_outer(s, t) && t.versioning == v,
{
    lemma_tag_names();
    let a = opt_leaf("latest"@, v.latest);
    let b = opt_leaf("release"@, v.release);
    let c = opt_tokens(v.versions, |vs| versions_tokens(vs));
    let d = opt_leaf("lastUpdated"@, v.last_updated);
    let e = opt_tokens(v.snapshot, |sn| snapshot_tokens(sn));
    let f = opt_tokens(v.snapshot_versions, |es| snapshot_versions_tokens(es));
    lemma_run_pointer("latest"@, Tag::Latest, v.latest, s);
    let s1 = meta_run(a, 0, s)->0;
    lemma_run_pointer("release"@, Tag::Release, v.release, s1);
    let s2 = meta_run(b, 0, s1)->0;
    lemma_run_versions_part(v.versions, s2);
    let s3 = meta_run(c, 0, s2)->0;
    lemma_run_pointer("lastUpdated"@, Tag::LastUpdated, v.last_updated, s3);
    let s4 = meta_run(d, 0, s3)->0;
    lemma_run_snapshot_part(v.snapshot, s4);
    let s5 = meta_run(e, 0, s4)->0;
    lemma_run_entries_part(v.snapshot_versions, s5);
    let s6 = meta_run(f, 0, s5)->0;
    assert(s6.versioning == v);
    lemma_run_concat(a, b, s);
    lemma_run_concat(a + b, c, s);
    lemma_run_concat(a + b + c, d, s);
    lemma_run_concat(a + b + c + d, e, s);
    lemma_run_concat(a + b + c + d + e, f, s);
}

/// Reading the tokens that a serializer writes for a metadata record gives that record back.
pub proof fn lemma_metadata_round_trip(m: MetadataView)
    ensures
        metadata_from_tokens(metadata_tokens(m)) == Some(m),
{
    lemma_tag_names();
    let s0 = meta_initial();
    let g = leaf("groupId"@, m.group_id);
    let a = leaf("artifactId"@, m.artifact_id);
    let v = block("versioning"@, versioning_tokens(m.versioning));
    lemma_run_block("metadata"@, g + a + v, s0);
    let s1 = meta_start(MetaState { path: s0.path.push(Tag::Unknown), text: Seq::empty(), ..s0 });
    assert(s1.path == seq![Tag::Unknown]);
    lemma_run_concat(g + a, v, s1);
    lemma_run_concat(g, a, s1);
    lemma_run_leaf("groupId"@, m.group_id, s1);
    assert(pop_path(s1.path.push(Tag::GroupId)) =~= s1.path);
    let s2 = meta_run(g, 0, s1)->0;
    lemma_run_leaf("artifactId"@, m.artifact_id, s2);
    assert(pop_path(s2.path.push(Tag::ArtifactId)) =~= s2.path);
    let s3 = meta_run(a, 0, s2)->0;
    lemma_run_block("versioning"@, versioning_tokens(m.versioning), s3);
    let s3a = meta_start(MetaState { path: s3.path.push(Tag::Versioning), text: Seq::empty(), ..s3 });
    assert(s3a.path == seq![Tag::Unknown, Tag::Versioning]);
    lemma_run_versioning(m.versioning, s3a);
    let s3b = meta_run(versioning_tokens(m.versioning), 0, s3a)->0;
    assert(pop_path(s3b.path) =~= s3.path);
    let s4 = meta_run(v, 0, s3)->0;
    assert(s4.versioning == m.versioning);
    assert(s4.has_versioning);
    assert(pop_path(s4.path) =~= Seq::<Tag>::empty());
}

} // verus!
