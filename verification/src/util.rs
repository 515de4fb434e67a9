//! Kernel version descriptor and metadata-file parser.
//!
//! A kernel build-metadata file declares its version in a leading header
//! block of `FIELD = value` lines. The parser scans that block line by
//! line, fills a [`KernelVersion`] descriptor, and stops once the `NAME`
//! field has been assigned a non-empty value and a line arrives that is
//! neither a comment nor a recognized field assignment.

use vstd::prelude::*;
use vstd::string::StrSliceExecFns;
use vstd::string::StringExecFns;

use crate::text::lines_view;
use crate::text::parse_u16;
use crate::text::spec_dec_digits;
use crate::text::spec_drop_dashes;
use crate::text::spec_first_ix;
use crate::text::spec_is_prefix;
use crate::text::spec_lines;
use crate::text::spec_parse_u16;
use crate::text::spec_trim;
use crate::text::split_lines;
use crate::text::str_starts_with;
use crate::text::strip_leading_dashes;
use crate::text::trim_str;
use crate::text::u16_dec_str;
use crate::text::lemma_first_ix;

verus! {

/// Which recognized field of the metadata file an error refers to.
#[derive(Debug, Clone, Copy, PartialEq, Eq, Structural)]
pub enum FieldName {
    Version,
    Patchlevel,
    Sublevel,
    Extraversion,
    Name,
}

/// A recognized field whose value could not be extracted: either its
/// line has no `=` separator, or a numeric field's value is not an
/// unsigned sixteen-bit decimal number.
#[derive(Debug, Clone, Copy, PartialEq, Eq, Structural)]
pub enum ParseError {
    MissingSeparator(FieldName),
    InvalidNumber(FieldName),
}

/// The mathematical content of a [`KernelVersion`].
#[verifier::ext_equal]
pub struct KernelVersionView {
    pub version: u16,
    pub patchlevel: u16,
    pub sublevel: u16,
    pub extraversion: Option<Seq<char>>,
    pub name: Seq<char>,
}

/// One parsed kernel version: the three numeric fields, the optional
/// extra-version text, and the release name.
#[derive(Debug)]
pub struct KernelVersion {
    pub version: u16,
    pub patchlevel: u16,
    pub sublevel: u16,
    pub extraversion: Option<String>,
    pub name: String,
}

impl View for KernelVersion {
    type V = KernelVersionView;

    open spec fn view(&self) -> KernelVersionView {
        KernelVersionView {
            version: self.version,
            patchlevel: self.patchlevel,
            sublevel: self.sublevel,
            extraversion: match self.extraversion {
                Some(e) => Some(e@),
                None => None,
            },
            name: self.name@,
        }
    }
}

/// The descriptor all fields start from: zero numbers, no extra
/// version, empty name.
pub open spec fn spec_default_version() -> KernelVersionView {
    KernelVersionView {
        version: 0,
        patchlevel: 0,
        sublevel: 0,
        extraversion: None,
        name: Seq::empty(),
    }
}

impl Default for KernelVersion {
    /// The descriptor the scan starts from.
    fn default() -> (kv: Self)
        ensures
            kv@ == spec_default_version(),
    {
        let kv = KernelVersion {
            version: 0,
            patchlevel: 0,
            sublevel: 0,
            extraversion: None,
            name: String::new(),
        };
        proof {
            assert(kv@ =~= spec_default_version());
        }
        kv
    }
}

/// A comment line: it begins with `#`.
pub open spec fn spec_is_comment(l: Seq<char>) -> bool {
    l.len() > 0 && l[0] == '#'
}

/// Everything after the first `=` of a line, or nothing when the line
/// has no `=`.
pub open spec fn spec_get_val(l: Seq<char>) -> Option<Seq<char>> {
    let j = spec_first_ix(l, '=');
    if j < l.len() {
        Some(l.skip(j + 1))
    } else {
        None
    }
}

/// A numeric field's value: extracted after `=`, trimmed, parsed as an
/// unsigned sixteen-bit decimal; each failure names the field.
pub open spec fn spec_field_u16(l: Seq<char>, f: FieldName) -> Result<u16, ParseError> {
    match spec_get_val(l) {
        Some(v) => match spec_parse_u16(spec_trim(v)) {
            Some(n) => Ok(n),
            None => Err(ParseError::InvalidNumber(f)),
        },
        None => Err(ParseError::MissingSeparator(f)),
    }
}

/// The scan over the header lines. Starting from `kv`, each line is
/// handled in turn: comments are skipped, recognized fields assign
/// their value, and the first unrecognized line after `NAME` has been
/// assigned a non-empty value ends the scan.
pub open spec fn spec_scan(kv: KernelVersionView, lines: Seq<Seq<char>>) -> Result<
    KernelVersionView,
    ParseError,
>
    decreases lines.len(),
{
    if lines.len() == 0 {
        Ok(kv)
    } else {
        let l = lines[0];
        let rest = lines.drop_first();
        if spec_is_comment(l) {
            spec_scan(kv, rest)
        } else if spec_is_prefix("VERSION"@, l) {
            match spec_field_u16(l, FieldName::Version) {
                Ok(n) => spec_scan(KernelVersionView { version: n, ..kv }, rest),
                Err(e) => Err(e),
            }
        } else if spec_is_prefix("PATCHLEVEL"@, l) {
            match spec_field_u16(l, FieldName::Patchlevel) {
                Ok(n) => spec_scan(KernelVersionView { patchlevel: n, ..kv }, rest),
                Err(e) => Err(e),
            }
        } else if spec_is_prefix("SUBLEVEL"@, l) {
            match spec_field_u16(l, FieldName::Sublevel) {
                Ok(n) => spec_scan(KernelVersionView { sublevel: n, ..kv }, rest),
                Err(e) => Err(e),
            }
        } else if spec_is_prefix("EXTRAVERSION"@, l) {
            match spec_get_val(l) {
                Some(v) => spec_scan(
                    KernelVersionView { extraversion: Some(spec_trim(v)), ..kv },
                    rest,
                ),
                None => Err(ParseError::MissingSeparator(FieldName::Extraversion)),
            }
        } else if spec_is_prefix("NAME"@, l) {
            match spec_get_val(l) {
                Some(v) => spec_scan(KernelVersionView { name: spec_trim(v), ..kv }, rest),
                None => Err(ParseError::MissingSeparator(FieldName::Name)),
            }
        } else if kv.name.len() > 0 {
            Ok(kv)
        } else {
            spec_scan(kv, rest)
        }
    }
}

/// What a whole metadata text parses to: the scan of its lines,
/// starting from the default descriptor.
pub open spec fn spec_parse(text: Seq<char>) -> Result<KernelVersionView, ParseError> {
    spec_scan(spec_default_version(), spec_lines(text))
}

impl KernelVersion {
    /// Everything after the first `=` of a line, or nothing when the
    /// line has no `=`.
    pub fn get_val<'a>(line: &'a str) -> (r: Option<&'a str>)
        ensures
            match r {
                Some(v) => spec_get_val(line@) == Some(v@),
                None => spec_get_val(line@) == None::<Seq<char>>,
            },
    {
        let n = line.unicode_len();
        let mut j: usize = 0;
        while j < n && line.get_char(j) != '='
            invariant
                0 <= j <= n,
                n == line@.len(),
                forall|k: int| 0 <= k < j ==> #[trigger] line@[k] != '=',
            decreases n - j,
        {
            j = j + 1;
        }
        proof {
            lemma_first_ix(line@, '=', j as int);
        }
        if j < n {
            let v = line.substring_char(j + 1, n);
            proof {
                assert(v@ =~= line@.skip(j + 1));
            }
            Some(v)
        } else {
            None
        }
    }

    /// Parse a metadata text into a version descriptor, mirroring
    /// `spec_parse`: an error identifies the field that failed, and
    /// otherwise the descriptor holds exactly the scanned fields.
    pub fn new(text: &str) -> (r: Result<KernelVersion, ParseError>)
        ensures
            match r {
                Ok(kv) => spec_parse(text@) == Ok::<KernelVersionView, ParseError>(kv@),
                Err(e) => spec_parse(text@) == Err::<KernelVersionView, ParseError>(e),
            },
    {
        let lines = split_lines(text);
        let mut kv = KernelVersion::default();
        let nl = lines.len();
        let mut idx: usize = 0;
        proof {
            assert(lines_view(lines@).skip(0) =~= lines_view(lines@));
        }
        while idx < nl
            invariant
                0 <= idx <= nl,
                nl == lines@.len(),
                lines_view(lines@) == spec_lines(text@),
                spec_parse(text@) == spec_scan(kv@, lines_view(lines@).skip(idx as int)),
            decreases nl - idx,
        {
            let ghost lv = lines_view(lines@);
            let ghost t = lv.skip(idx as int);
            let line = lines[idx].as_str();
            proof {
                assert(lv[idx as int] == lines@[idx as int]@);
                assert(t[0] == lv[idx as int]);
                assert(t.drop_first() =~= lv.skip(idx as int + 1));
            }
            if line.unicode_len() > 0 && line.get_char(0) == '#' {
                // comment: skipped
            } else if str_starts_with(line, "VERSION") {
                match KernelVersion::get_val(line) {
                    Some(v) => match parse_u16(trim_str(v)) {
                        Some(n) => {
                            kv.version = n;
                        },
                        None => {
                            return Err(ParseError::InvalidNumber(FieldName::Version));
                        },
                    },
                    None => {
                        return Err(ParseError::MissingSeparator(FieldName::Version));
                    },
                }
            } else if str_starts_with(line, "PATCHLEVEL") {
                match KernelVersion::get_val(line) {
                    Some(v) => match parse_u16(trim_str(v)) {
                        Some(n) => {
                            kv.patchlevel = n;
                        },
                        None => {
                            return Err(ParseError::InvalidNumber(FieldName::Patchlevel));
                        },
                    },
                    None => {
                        return Err(ParseError::MissingSeparator(FieldName::Patchlevel));
                    },
                }
            } else if str_starts_with(line, "SUBLEVEL") {
                match KernelVersion::get_val(line) {
                    Some(v) => match parse_u16(trim_str(v)) {
                        Some(n) => {
                            kv.sublevel = n;
                        },
                        None => {
                            return Err(ParseError::InvalidNumber(FieldName::Sublevel));
                        },
                    },
                    None => {
                        return Err(ParseError::MissingSeparator(FieldName::Sublevel));
                    },
                }
            } else if str_starts_with(line, "EXTRAVERSION") {
                match KernelVersion::get_val(line) {
                    Some(v) => {
                        kv.extraversion = Some(String::from_str(trim_str(v)));
                    },
                    None => {
                        return Err(ParseError::MissingSeparator(FieldName::Extraversion));
                    },
                }
            } else if str_starts_with(line, "NAME") {
                match KernelVersion::get_val(line) {
                    Some(v) => {
                        kv.name = String::from_str(trim_str(v));
                    },
                    None => {
                        return Err(ParseError::MissingSeparator(FieldName::Name));
                    },
                }
            } else if !kv.name.as_str().is_empty() {
                return Ok(kv);
            } else {
                // unrecognized line before the header is complete: skipped
            }
            idx = idx + 1;
        }
        proof {
            assert(lines_view(lines@).skip(nl as int) =~= Seq::<Seq<char>>::empty());
        }
        Ok(kv)
    }

    /// Render a version descriptor, mirroring `spec_render`.
    pub fn render(&self) -> (s: String)
        ensures
            s@ == spec_render(self@),
    {
        let mut s = u16_dec_str(self.version);
        s.append(".");
        let pl = u16_dec_str(self.patchlevel);
        s.append(pl.as_str());
        match &self.extraversion {
            Some(e) => {
                s.append("-");
                s.append(strip_leading_dashes(e.as_str()));
            },
            None => {
                s.append(".");
                let sl = u16_dec_str(self.sublevel);
                s.append(sl.as_str());
            },
        }
        proof {
            reveal_strlit(".");
            reveal_strlit("-");
            assert("."@ =~= seq!['.']);
            assert("-"@ =~= seq!['-']);
            assert(s@ =~= spec_render(self@));
        }
        s
    }
}

/// The canonical display form: `major.minor` followed by the suffix.
/// When extra-version text is present it replaces the sublevel
/// component: the suffix is one `-` separator and the stored text with
/// any leading separators of its own removed. Otherwise the suffix is
/// `.` and the sublevel.
pub open spec fn spec_render(kv: KernelVersionView) -> Seq<char> {
    spec_dec_digits(kv.version as nat) + seq!['.'] + spec_dec_digits(kv.patchlevel as nat) + (
    match kv.extraversion {
        Some(e) => seq!['-'] + spec_drop_dashes(e),
        None => seq!['.'] + spec_dec_digits(kv.sublevel as nat),
    })
}

/// A located kernel source tree: its version descriptor and the
/// directory it was found in.
#[derive(Debug)]
pub struct KernelInfo {
    pub version: KernelVersion,
    pub kwd: String,
}

impl KernelInfo {
    /// Combine a located tree root with the parse of its metadata
    /// text: the descriptor holds exactly what the text parses to, and
    /// the directory is kept as given.
    pub fn new(kwd: String, makefile_text: &str) -> (r: Result<KernelInfo, ParseError>)
        ensures
            match r {
                Ok(info) => spec_parse(makefile_text@) == Ok::<KernelVersionView, ParseError>(
                    info.version@,
                ) && info.kwd@ == kwd@,
                Err(e) => spec_parse(makefile_text@) == Err::<KernelVersionView, ParseError>(e),
            },
    {
        match KernelVersion::new(makefile_text) {
            Ok(version) => Ok(KernelInfo { version, kwd }),
            Err(e) => Err(e),
        }
    }
}

/// Law: comment lines never affect the scan. Inserting a comment line
/// at any position among the header lines leaves the outcome of the
/// scan unchanged, whatever descriptor it starts from.
pub proof fn lemma_comment_lines_ignored(
    kv: KernelVersionView,
    lines: Seq<Seq<char>>,
    k: int,
    c: Seq<char>,
)
    requires
        0 <= k <= lines.len(),
        spec_is_comment(c),
    ensures
        spec_scan(kv, lines.insert(k, c)) == spec_scan(kv, lines),
    decreases lines.len(),
{
    let li = lines.insert(k, c);
    if k == 0 {
        assert(li[0] == c);
        assert(li.drop_first() =~= lines);
    } else {
        let l = lines[0];
        let rest = lines.drop_first();
        assert(li[0] == l);
        assert(li.drop_first() =~= rest.insert(k - 1, c));
        if spec_is_comment(l) {
            lemma_comment_lines_ignored(kv, rest, k - 1, c);
        } else if spec_is_prefix("VERSION"@, l) {
            match spec_field_u16(l, FieldName::Version) {
                Ok(n) => lemma_comment_lines_ignored(
                    KernelVersionView { version: n, ..kv },
                    rest,
                    k - 1,
                    c,
                ),
                Err(_) => {},
            }
        } else if spec_is_prefix("PATCHLEVEL"@, l) {
            match spec_field_u16(l, FieldName::Patchlevel) {
                Ok(n) => lemma_comment_lines_ignored(
                    KernelVersionView { patchlevel: n, ..kv },
                    rest,
                    k - 1,
                    c,
                ),
                Err(_) => {},
            }
        } else if spec_is_prefix("SUBLEVEL"@, l) {
            match spec_field_u16(l, FieldName::Sublevel) {
                Ok(n) => lemma_comment_lines_ignored(
                    KernelVersionView { sublevel: n, ..kv },
                    rest,
                    k - 1,
                    c,
                ),
                Err(_) => {},
            }
        } else if spec_is_prefix("EXTRAVERSION"@, l) {
            match spec_get_val(l) {
                Some(v) => lemma_comment_lines_ignored(
                    KernelVersionView { extraversion: Some(spec_trim(v)), ..kv },
                    rest,
                    k - 1,
                    c,
                ),
                None => {},
            }
        } else if spec_is_prefix("NAME"@, l) {
            match spec_get_val(l) {
                Some(v) => lemma_comment_lines_ignored(
                    KernelVersionView { name: spec_trim(v), ..kv },
                    rest,
                    k - 1,
                    c,
                ),
                None => {},
            }
        } else if kv.name.len() > 0 {
        } else {
            lemma_comment_lines_ignored(kv, rest, k - 1, c);
        }
    }
}

} // verus!
