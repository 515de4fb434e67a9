use tks::util::{FieldName, KernelInfo, KernelVersion, ParseError};

fn parse_ok(text: &str) -> KernelVersion {
    KernelVersion::new(text).expect("expected a successful parse")
}

#[test]
fn basic_header_parses_and_renders() {
    let kv = parse_ok("VERSION = 6\nPATCHLEVEL = 1\nSUBLEVEL = 0\nNAME = Example\n");
    assert_eq!(kv.version, 6);
    assert_eq!(kv.patchlevel, 1);
    assert_eq!(kv.sublevel, 0);
    assert_eq!(kv.extraversion, None);
    assert_eq!(kv.name, "Example");
    assert_eq!(kv.render(), "6.1.0");
}

#[test]
fn extraversion_replaces_sublevel_in_rendering() {
    let kv = parse_ok(
        "VERSION = 6\nPATCHLEVEL = 1\nSUBLEVEL = 0\nEXTRAVERSION = -rc1\nNAME = Example\n",
    );
    assert_eq!(kv.extraversion, Some(String::from("-rc1")));
    assert_eq!(kv.render(), "6.1-rc1");
}

#[test]
fn comment_lines_are_ignored() {
    let plain = parse_ok("VERSION = 6\nPATCHLEVEL = 1\nSUBLEVEL = 0\nNAME = Example\n");
    let commented = parse_ok(
        "# SPDX-License-Identifier: GPL-2.0\nVERSION = 6\n# VERSION = 9\nPATCHLEVEL = 1\nSUBLEVEL = 0\n# midway remark\nNAME = Example\n",
    );
    assert_eq!(commented.version, plain.version);
    assert_eq!(commented.patchlevel, plain.patchlevel);
    assert_eq!(commented.sublevel, plain.sublevel);
    assert_eq!(commented.extraversion, plain.extraversion);
    assert_eq!(commented.name, plain.name);
}

#[test]
fn field_line_without_separator_is_an_error() {
    let r = KernelVersion::new("VERSION 6\nPATCHLEVEL = 1\nNAME = Example\n");
    assert_eq!(r.unwrap_err(), ParseError::MissingSeparator(FieldName::Version));
}

#[test]
fn name_line_without_separator_is_an_error() {
    let r = KernelVersion::new("VERSION = 6\nNAME\n");
    assert_eq!(r.unwrap_err(), ParseError::MissingSeparator(FieldName::Name));
}

#[test]
fn non_numeric_value_is_an_error() {
    let r = KernelVersion::new("VERSION = six\nNAME = Example\n");
    assert_eq!(r.unwrap_err(), ParseError::InvalidNumber(FieldName::Version));
}

#[test]
fn empty_numeric_value_is_an_error() {
    let r = KernelVersion::new("SUBLEVEL =\nNAME = Example\n");
    assert_eq!(r.unwrap_err(), ParseError::InvalidNumber(FieldName::Sublevel));
}

#[test]
fn numeric_value_too_large_is_an_error() {
    let r = KernelVersion::new("PATCHLEVEL = 70000\nNAME = Example\n");
    assert_eq!(r.unwrap_err(), ParseError::InvalidNumber(FieldName::Patchlevel));
}

#[test]
fn leading_plus_sign_parses_as_unsigned() {
    let kv = parse_ok("VERSION = +6\nNAME = Example\n");
    assert_eq!(kv.version, 6);
}

#[test]
fn missing_fields_default_to_zero_and_absent() {
    let kv = parse_ok("NAME = Bare\n");
    assert_eq!(kv.version, 0);
    assert_eq!(kv.patchlevel, 0);
    assert_eq!(kv.sublevel, 0);
    assert_eq!(kv.extraversion, None);
    assert_eq!(kv.name, "Bare");
    assert_eq!(kv.render(), "0.0.0");
}

#[test]
fn empty_extraversion_value_is_kept_as_empty_text() {
    let kv = parse_ok("VERSION = 6\nPATCHLEVEL = 1\nEXTRAVERSION =\nNAME = Example\n");
    assert_eq!(kv.extraversion, Some(String::new()));
    assert_eq!(kv.render(), "6.1-");
}

#[test]
fn scan_stops_after_header_is_complete() {
    let kv = parse_ok(
        "VERSION = 6\nPATCHLEVEL = 1\nSUBLEVEL = 0\nNAME = Example\nARCH := x86\nVERSION = 9\n",
    );
    assert_eq!(kv.version, 6);
    assert_eq!(kv.name, "Example");
}

#[test]
fn comments_after_complete_header_do_not_stop_later_fields() {
    let kv = parse_ok("NAME = Early\n# still scanning\nVERSION = 6\nstop here\nVERSION = 9\n");
    assert_eq!(kv.name, "Early");
    assert_eq!(kv.version, 6);
}

#[test]
fn unrecognized_lines_before_name_are_skipped() {
    let kv = parse_ok("ignore this line\nVERSION = 6\nNAME = Example\n");
    assert_eq!(kv.version, 6);
    assert_eq!(kv.name, "Example");
}

#[test]
fn crlf_line_endings_are_accepted() {
    let kv = parse_ok("VERSION = 6\r\nPATCHLEVEL = 1\r\nSUBLEVEL = 0\r\nNAME = Example\r\n");
    assert_eq!(kv.version, 6);
    assert_eq!(kv.patchlevel, 1);
    assert_eq!(kv.name, "Example");
}

#[test]
fn values_are_trimmed_of_surrounding_whitespace() {
    let kv = parse_ok("VERSION =   6  \nNAME =   The Example  \n");
    assert_eq!(kv.version, 6);
    assert_eq!(kv.name, "The Example");
}

#[test]
fn get_val_returns_everything_after_first_separator() {
    assert_eq!(KernelVersion::get_val("VERSION = 6"), Some(" 6"));
    assert_eq!(KernelVersion::get_val("NAME = a = b"), Some(" a = b"));
    assert_eq!(KernelVersion::get_val("VERSION 6"), None);
}

#[test]
fn rendering_normalizes_the_extraversion_separator() {
    let kv = KernelVersion {
        version: 6,
        patchlevel: 1,
        sublevel: 4,
        extraversion: Some(String::from("rc1")),
        name: String::from("Example"),
    };
    assert_eq!(kv.render(), "6.1-rc1");
    let kv2 = KernelVersion { extraversion: Some(String::from("--odd")), ..kv };
    assert_eq!(kv2.render(), "6.1-odd");
}

#[test]
fn default_descriptor_is_all_zero_and_unnamed() {
    let kv = KernelVersion::default();
    assert_eq!(kv.version, 0);
    assert_eq!(kv.patchlevel, 0);
    assert_eq!(kv.sublevel, 0);
    assert_eq!(kv.extraversion, None);
    assert_eq!(kv.name, "");
}

#[test]
fn repeated_reads_of_the_same_text_agree() {
    let text = "VERSION = 6\nPATCHLEVEL = 1\nSUBLEVEL = 7\nEXTRAVERSION = -rc3\nNAME = Example\n";
    let a = parse_ok(text);
    let b = parse_ok(text);
    assert_eq!(a.version, b.version);
    assert_eq!(a.patchlevel, b.patchlevel);
    assert_eq!(a.sublevel, b.sublevel);
    assert_eq!(a.extraversion, b.extraversion);
    assert_eq!(a.name, b.name);
    assert_eq!(a.render(), b.render());
}

#[test]
fn largest_sixteen_bit_value_is_accepted() {
    let kv = parse_ok("VERSION = 65535\nNAME = Example\n");
    assert_eq!(kv.version, 65535);
    let r = KernelVersion::new("VERSION = 65536\nNAME = Example\n");
    assert_eq!(r.unwrap_err(), ParseError::InvalidNumber(FieldName::Version));
}

#[test]
fn recognition_goes_by_line_prefix() {
    // Any line beginning with a recognized field name is treated as
    // that field, whatever follows the prefix.
    let kv = parse_ok("VERSION_SUFFIX = 6\nNAME = Example\n");
    assert_eq!(kv.version, 6);
}

#[test]
fn a_lone_hash_is_a_comment() {
    let kv = parse_ok("#\nVERSION = 6\nNAME = Example\n");
    assert_eq!(kv.version, 6);
}

#[test]
fn blank_lines_before_the_header_are_skipped() {
    let kv = parse_ok("\n\nVERSION = 6\nNAME = Example\n");
    assert_eq!(kv.version, 6);
}

#[test]
fn blank_line_after_complete_header_stops_the_scan() {
    let kv = parse_ok("VERSION = 6\nNAME = Example\n\nVERSION = 9\n");
    assert_eq!(kv.version, 6);
}

#[test]
fn kernel_info_keeps_the_located_directory() {
    let info = KernelInfo::new(
        String::from("/src/linux"),
        "VERSION = 6\nPATCHLEVEL = 1\nSUBLEVEL = 0\nNAME = Example\n",
    )
    .expect("expected a successful read");
    assert_eq!(info.kwd, "/src/linux");
    assert_eq!(info.version.render(), "6.1.0");
}

#[test]
fn kernel_info_propagates_parse_errors() {
    let r = KernelInfo::new(String::from("/src/linux"), "VERSION 6\n");
    assert_eq!(r.unwrap_err(), ParseError::MissingSeparator(FieldName::Version));
}
