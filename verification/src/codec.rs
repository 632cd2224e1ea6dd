//! The configuration document: a two-section structured text format.
//!
//! A document looks like
//!
//! ```text
//! settings:
//!   launch_on_system_startup: false
//! instances:
//!   - name: "bin"
//!     path: "/apps/foo/bin"
//! ```
//!
//! Names and paths stand between double quotes; a backslash, a double quote
//! and a newline inside them are written `\\`, `\"` and `\n`, so every byte
//! sequence can be stored and read back unchanged. `ser_config` is the
//! mathematical serializer, `parse_config` the mathematical parser, and
//! `lemma_parse_ser_config` proves that the second inverts the first.

use vstd::prelude::*;

use crate::error::LauncherError;
use crate::state::ConfigData;
use crate::state::ConfigModel;
use crate::state::Instance;
use crate::state::InstanceModel;
use crate::state::Settings;
use crate::state::instance_models;

verus! {

pub const QUOTE: u8 = 34;
pub const BACKSLASH: u8 = 92;
pub const NEWLINE: u8 = 10;
pub const LOWER_N: u8 = 110;

/// The bytes of the line `settings:`.
pub open spec fn settings_header() -> Seq<u8> {
    seq![115, 101, 116, 116, 105, 110, 103, 115, 58, 10]
}

/// The bytes of `  launch_on_system_startup: `, up to the flag's value.
pub open spec fn startup_key() -> Seq<u8> {
    seq![32, 32, 108, 97, 117, 110, 99, 104, 95, 111, 110, 95, 115, 121, 115, 116, 101, 109, 95,
        115, 116, 97, 114, 116, 117, 112, 58, 32]
}

/// The bytes of `true`.
pub open spec fn true_lit() -> Seq<u8> {
    seq![116, 114, 117, 101]
}

/// The bytes of `false`.
pub open spec fn false_lit() -> Seq<u8> {
    seq![102, 97, 108, 115, 101]
}

/// The bytes of the line `instances:`.
pub open spec fn instances_header() -> Seq<u8> {
    seq![105, 110, 115, 116, 97, 110, 99, 101, 115, 58, 10]
}

/// The bytes of `  - name: "`, up to the instance's name.
pub open spec fn name_prefix() -> Seq<u8> {
    seq![32, 32, 45, 32, 110, 97, 109, 101, 58, 32, 34]
}

/// The bytes of `    path: "`, up to the instance's path.
pub open spec fn path_prefix() -> Seq<u8> {
    seq![32, 32, 32, 32, 112, 97, 116, 104, 58, 32, 34]
}

/// How one byte of a name or path is written inside a quoted value.
pub open spec fn escape_byte(b: u8) -> Seq<u8> {
    if b == BACKSLASH {
        seq![BACKSLASH, BACKSLASH]
    } else if b == QUOTE {
        seq![BACKSLASH, QUOTE]
    } else if b == NEWLINE {
        seq![BACKSLASH, LOWER_N]
    } else {
        seq![b]
    }
}

/// How a whole name or path is written inside a quoted value.
pub open spec fn escape_seq(s: Seq<u8>) -> Seq<u8>
    decreases s.len(),
{
    if s.len() == 0 {
        Seq::empty()
    } else {
        escape_byte(s[0]) + escape_seq(s.skip(1))
    }
}

/// The serialized settings section.
pub open spec fn ser_settings(launch_on_system_startup: bool) -> Seq<u8> {
    settings_header() + startup_key() + (if launch_on_system_startup {
        true_lit()
    } else {
        false_lit()
    }) + seq![NEWLINE]
}

/// The two serialized lines of one instance record.
pub open spec fn ser_instance(i: InstanceModel) -> Seq<u8> {
    name_prefix() + escape_seq(i.name) + seq![QUOTE, NEWLINE] + path_prefix() + escape_seq(i.path)
        + seq![QUOTE, NEWLINE]
}

/// The serialized instance list, in order.
pub open spec fn ser_instances(l: Seq<InstanceModel>) -> Seq<u8>
    decreases l.len(),
{
    if l.len() == 0 {
        Seq::empty()
    } else {
        ser_instance(l[0]) + ser_instances(l.skip(1))
    }
}

/// The whole serialized configuration document.
pub open spec fn ser_config(c: ConfigModel) -> Seq<u8> {
    ser_settings(c.launch_on_system_startup) + instances_header() + ser_instances(c.instances)
}

/// The rest of `s` after the literal prefix `p`, or `None` where `s` does not
/// start with `p`.
pub open spec fn strip_prefix(s: Seq<u8>, p: Seq<u8>) -> Option<Seq<u8>> {
    if p.len() <= s.len() && s.subrange(0, p.len() as int) == p {
        Some(s.skip(p.len() as int))
    } else {
        None
    }
}

/// Reads a quoted value from the start of `s` up to and including its closing
/// quote: the decoded content and the number of bytes consumed. A raw newline,
/// an unknown escape and a missing closing quote are malformed.
pub open spec fn parse_quoted(s: Seq<u8>) -> Option<(Seq<u8>, int)>
    decreases s.len(),
{
    if s.len() == 0 {
        None
    } else if s[0] == QUOTE {
        Some((Seq::empty(), 1))
    } else if s[0] == BACKSLASH {
        if s.len() >= 2 && (s[1] == BACKSLASH || s[1] == QUOTE || s[1] == LOWER_N) {
            let d: u8 = if s[1] == LOWER_N {
                NEWLINE
            } else {
                s[1]
            };
            match parse_quoted(s.skip(2)) {
                Some(p) => Some((seq![d] + p.0, p.1 + 2)),
                None => None,
            }
        } else {
            None
        }
    } else if s[0] == NEWLINE {
        None
    } else {
        match parse_quoted(s.skip(1)) {
            Some(p) => Some((seq![s[0]] + p.0, p.1 + 1)),
            None => None,
        }
    }
}

/// Reads the settings section from the start of `s`: the flag's value and the
/// rest of the input.
pub open spec fn parse_settings(s: Seq<u8>) -> Option<(bool, Seq<u8>)> {
    match strip_prefix(s, settings_header()) {
        Some(r1) => match strip_prefix(r1, startup_key()) {
            Some(r2) => match strip_prefix(r2, true_lit()) {
                Some(r3) => match strip_prefix(r3, seq![NEWLINE]) {
                    Some(r4) => Some((true, r4)),
                    None => None,
                },
                None => match strip_prefix(r2, false_lit()) {
                    Some(r3) => match strip_prefix(r3, seq![NEWLINE]) {
                        Some(r4) => Some((false, r4)),
                        None => None,
                    },
                    None => None,
                },
            },
            None => None,
        },
        None => None,
    }
}

/// Reads one instance record (two lines) from the start of `s`: the record
/// and the rest of the input.
pub open spec fn parse_instance(s: Seq<u8>) -> Option<(InstanceModel, Seq<u8>)> {
    match strip_prefix(s, name_prefix()) {
        Some(r1) => match parse_quoted(r1) {
            Some((name, k1)) => match strip_prefix(r1.skip(k1), seq![NEWLINE]) {
                Some(r2) => match strip_prefix(r2, path_prefix()) {
                    Some(r3) => match parse_quoted(r3) {
                        Some((path, k2)) => match strip_prefix(r3.skip(k2), seq![NEWLINE]) {
                            Some(r4) => Some((InstanceModel { name, path }, r4)),
                            None => None,
                        },
                        None => None,
                    },
                    None => None,
                },
                None => None,
            },
            None => None,
        },
        None => None,
    }
}

/// Reads instance records until the input ends; anything that is not a
/// well-formed record is malformed.
pub open spec fn parse_instances(s: Seq<u8>) -> Option<Seq<InstanceModel>>
    decreases s.len(),
    via parse_instances_decreases
{
    if s.len() == 0 {
        Some(Seq::empty())
    } else {
        match parse_instance(s) {
            Some((i, r)) => match parse_instances(r) {
                Some(l) => Some(seq![i] + l),
                None => None,
            },
            None => None,
        }
    }
}

#[via_fn]
proof fn parse_instances_decreases(s: Seq<u8>) {
    lemma_parse_instance_consumes(s);
}

/// Reads a whole configuration document; trailing bytes are malformed.
pub open spec fn parse_config(s: Seq<u8>) -> Option<ConfigModel> {
    match parse_settings(s) {
        Some((flag, r1)) => match strip_prefix(r1, instances_header()) {
            Some(r2) => match parse_instances(r2) {
                Some(l) => Some(ConfigModel { launch_on_system_startup: flag, instances: l }),
                None => None,
            },
            None => None,
        },
        None => None,
    }
}

/// A successful `parse_quoted` consumes at least the closing quote and no
/// more than the whole input.
pub proof fn lemma_parse_quoted_bounds(s: Seq<u8>)
    ensures
        parse_quoted(s) matches Some(p) ==> 1 <= p.1 <= s.len(),
    decreases s.len(),
{
    if s.len() == 0 {
    } else if s[0] == QUOTE {
    } else if s[0] == BACKSLASH {
        if s.len() >= 2 && (s[1] == BACKSLASH || s[1] == QUOTE || s[1] == LOWER_N) {
            lemma_parse_quoted_bounds(s.skip(2));
        }
    } else if s[0] == NEWLINE {
    } else {
        lemma_parse_quoted_bounds(s.skip(1));
    }
}

/// A successful `parse_instance` consumes at least one byte.
pub proof fn lemma_parse_instance_consumes(s: Seq<u8>)
    ensures
        parse_instance(s) matches Some(p) ==> p.1.len() < s.len(),
{
    match strip_prefix(s, name_prefix()) {
        Some(r1) => {
            assert(r1.len() == s.len() - name_prefix().len());
            lemma_parse_quoted_bounds(r1);
            match parse_quoted(r1) {
                Some((name, k1)) => {
                    let r1b = r1.skip(k1);
                    match strip_prefix(r1b, seq![NEWLINE]) {
                        Some(r2) => {
                            assert(r2.len() == r1b.len() - 1);
                            match strip_prefix(r2, path_prefix()) {
                                Some(r3) => {
                                    lemma_parse_quoted_bounds(r3);
                                    match parse_quoted(r3) {
                                        Some((path, k2)) => {
                                            let r3b = r3.skip(k2);
                                            match strip_prefix(r3b, seq![NEWLINE]) {
                                                Some(r4) => {
                                                    assert(r4.len() == r3b.len() - 1);
                                                },
                                                None => {},
                                            }
                                        },
                                        None => {},
                                    }
                                },
                                None => {},
                            }
                        },
                        None => {},
                    }
                },
                None => {},
            }
        },
        None => {},
    }
}

/// Stripping a literal prefix off a value that starts with exactly that
/// prefix leaves the rest.
pub proof fn lemma_strip_prefix_concat(p: Seq<u8>, rest: Seq<u8>)
    ensures
        strip_prefix(p + rest, p) == Some(rest),
{
    let s = p + rest;
    assert(s.subrange(0, p.len() as int) =~= p);
    assert(s.skip(p.len() as int) =~= rest);
}

/// Reading a quoted value back from its escaped form recovers the original
/// bytes and stops exactly at the closing quote, whatever follows.
pub proof fn lemma_parse_quoted_escape(s: Seq<u8>, rest: Seq<u8>)
    ensures
        parse_quoted(escape_seq(s) + seq![QUOTE] + rest) == Some(
            (s, escape_seq(s).len() + 1 as int),
        ),
    decreases s.len(),
{
    let input = escape_seq(s) + seq![QUOTE] + rest;
    if s.len() == 0 {
        assert(input =~= seq![QUOTE] + rest);
        assert(input[0] == QUOTE);
        assert(s =~= Seq::<u8>::empty());
    } else {
        let b = s[0];
        let tail = s.skip(1);
        lemma_parse_quoted_escape(tail, rest);
        let input2 = escape_seq(tail) + seq![QUOTE] + rest;
        assert(escape_seq(s) == escape_byte(b) + escape_seq(tail));
        if b == BACKSLASH || b == QUOTE || b == NEWLINE {
            assert(input[0] == BACKSLASH);
            assert(input.len() >= 2);
            assert(input.skip(2) =~= input2);
            let p = parse_quoted(input2).unwrap();
            assert(parse_quoted(input) == Some((seq![b] + p.0, p.1 + 2)));
            assert(seq![b] + tail =~= s);
        } else {
            assert(input[0] == b);
            assert(input.skip(1) =~= input2);
            let p = parse_quoted(input2).unwrap();
            assert(parse_quoted(input) == Some((seq![b] + p.0, p.1 + 1)));
            assert(seq![b] + tail =~= s);
        }
    }
}

/// Reading one instance record back from its serialized form recovers the
/// record and stops exactly after its second line, whatever follows.
pub proof fn lemma_parse_instance_ser(i: InstanceModel, rest: Seq<u8>)
    ensures
        parse_instance(ser_instance(i) + rest) == Some((i, rest)),
{
    let input = ser_instance(i) + rest;
    let after_name_quote = seq![NEWLINE] + path_prefix() + escape_seq(i.path)
        + seq![QUOTE, NEWLINE] + rest;
    let r1 = escape_seq(i.name) + seq![QUOTE] + after_name_quote;
    assert(input =~= name_prefix() + r1);
    lemma_strip_prefix_concat(name_prefix(), r1);
    lemma_parse_quoted_escape(i.name, after_name_quote);
    let k1 = escape_seq(i.name).len() + 1 as int;
    assert(r1.skip(k1) =~= after_name_quote);
    let r2 = path_prefix() + escape_seq(i.path) + seq![QUOTE, NEWLINE] + rest;
    assert(after_name_quote =~= seq![NEWLINE] + r2);
    lemma_strip_prefix_concat(seq![NEWLINE], r2);
    let after_path_quote = seq![NEWLINE] + rest;
    let r3 = escape_seq(i.path) + seq![QUOTE] + after_path_quote;
    assert(r2 =~= path_prefix() + r3);
    lemma_strip_prefix_concat(path_prefix(), r3);
    lemma_parse_quoted_escape(i.path, after_path_quote);
    let k2 = escape_seq(i.path).len() + 1 as int;
    assert(r3.skip(k2) =~= after_path_quote);
    assert(after_path_quote =~= seq![NEWLINE] + rest);
    lemma_strip_prefix_concat(seq![NEWLINE], rest);
    assert(InstanceModel { name: i.name, path: i.path } == i);
}

/// Reading the whole instance list back from its serialized form recovers it
/// exactly: same records, same order, nothing added or dropped.
pub proof fn lemma_parse_instances_ser(l: Seq<InstanceModel>)
    ensures
        parse_instances(ser_instances(l)) == Some(l),
    decreases l.len(),
{
    if l.len() == 0 {
        assert(ser_instances(l).len() == 0);
        assert(parse_instances(ser_instances(l)) == Some(Seq::<InstanceModel>::empty()));
        assert(l =~= Seq::<InstanceModel>::empty());
    } else {
        let tail = l.skip(1);
        let input = ser_instance(l[0]) + ser_instances(tail);
        assert(ser_instances(l) == input);
        assert(input.len() >= name_prefix().len()) by {
            assert(ser_instance(l[0]).len() >= name_prefix().len());
        }
        lemma_parse_instance_ser(l[0], ser_instances(tail));
        lemma_parse_instances_ser(tail);
        assert(seq![l[0]] + tail =~= l);
    }
}

/// Reading the settings section back from its serialized form recovers the
/// flag and stops exactly after its line, whatever follows.
#[verifier::rlimit(40)]
pub proof fn lemma_parse_settings_ser(flag: bool, rest: Seq<u8>)
    ensures
        parse_settings(ser_settings(flag) + rest) == Some((flag, rest)),
{
    let input = ser_settings(flag) + rest;
    let lit = if flag {
        true_lit()
    } else {
        false_lit()
    };
    let r1 = startup_key() + lit + seq![NEWLINE] + rest;
    assert(input =~= settings_header() + r1);
    lemma_strip_prefix_concat(settings_header(), r1);
    let r2 = lit + seq![NEWLINE] + rest;
    assert(r1 =~= startup_key() + r2);
    lemma_strip_prefix_concat(startup_key(), r2);
    let r3 = seq![NEWLINE] + rest;
    assert(r2 =~= lit + r3);
    lemma_strip_prefix_concat(lit, r3);
    if !flag {
        assert(strip_prefix(r2, true_lit()) is None) by {
            assert(r2.len() >= true_lit().len());
            assert(r2.subrange(0, true_lit().len() as int)[0] == false_lit()[0]);
            assert(false_lit()[0] != true_lit()[0]);
        }
    }
    lemma_strip_prefix_concat(seq![NEWLINE], rest);
    assert(r3 =~= seq![NEWLINE] + rest);
}

/// Escaping a concatenation escapes each part.
pub proof fn lemma_escape_seq_app(a: Seq<u8>, b: Seq<u8>)
    ensures
        escape_seq(a + b) == escape_seq(a) + escape_seq(b),
    decreases a.len(),
{
    if a.len() == 0 {
        assert(a + b =~= b);
        assert(escape_seq(a) + escape_seq(b) =~= escape_seq(b));
    } else {
        assert((a + b).skip(1) =~= a.skip(1) + b);
        lemma_escape_seq_app(a.skip(1), b);
        assert((a + b)[0] == a[0]);
        assert(escape_byte(a[0]) + (escape_seq(a.skip(1)) + escape_seq(b)) =~= (escape_byte(a[0])
            + escape_seq(a.skip(1))) + escape_seq(b));
    }
}

/// Serializing a concatenation of instance lists serializes each part.
pub proof fn lemma_ser_instances_app(a: Seq<InstanceModel>, b: Seq<InstanceModel>)
    ensures
        ser_instances(a + b) == ser_instances(a) + ser_instances(b),
    decreases a.len(),
{
    if a.len() == 0 {
        assert(a + b =~= b);
        assert(ser_instances(a) + ser_instances(b) =~= ser_instances(b));
    } else {
        assert((a + b).skip(1) =~= a.skip(1) + b);
        lemma_ser_instances_app(a.skip(1), b);
        assert((a + b)[0] == a[0]);
        assert(ser_instance(a[0]) + (ser_instances(a.skip(1)) + ser_instances(b)) =~= (ser_instance(
            a[0],
        ) + ser_instances(a.skip(1))) + ser_instances(b));
    }
}

/// The parser inverts the serializer: a document written by `ser_config` is
/// well-formed and reads back to exactly the state it was written from.
pub proof fn lemma_parse_ser_config(c: ConfigModel)
    ensures
        parse_config(ser_config(c)) == Some(c),
{
    let input = ser_config(c);
    let rest1 = instances_header() + ser_instances(c.instances);
    assert(input =~= ser_settings(c.launch_on_system_startup) + rest1);
    lemma_parse_settings_ser(c.launch_on_system_startup, rest1);
    lemma_strip_prefix_concat(instances_header(), ser_instances(c.instances));
    lemma_parse_instances_ser(c.instances);
    assert(ConfigModel {
        launch_on_system_startup: c.launch_on_system_startup,
        instances: c.instances,
    } == c);
}

/// Builds the literal bytes of `settings_header`.
fn settings_header_vec() -> (v: Vec<u8>)
    ensures
        v@ == settings_header(),
{
    let mut v: Vec<u8> = Vec::new();
    v.push(115);
    v.push(101);
    v.push(116);
    v.push(116);
    v.push(105);
    v.push(110);
    v.push(103);
    v.push(115);
    v.push(58);
    v.push(10);
    proof {
        assert(v@ =~= settings_header());
    }
    v
}

/// Builds the literal bytes of `startup_key`.
fn startup_key_vec() -> (v: Vec<u8>)
    ensures
        v@ == startup_key(),
{
    let mut v: Vec<u8> = Vec::new();
    v.push(32);
    v.push(32);
    v.push(108);
    v.push(97);
    v.push(117);
    v.push(110);
    v.push(99);
    v.push(104);
    v.push(95);
    v.push(111);
    v.push(110);
    v.push(95);
    v.push(115);
    v.push(121);
    v.push(115);
    v.push(116);
    v.push(101);
    v.push(109);
    v.push(95);
    v.push(115);
    v.push(116);
    v.push(97);
    v.push(114);
    v.push(116);
    v.push(117);
    v.push(112);
    v.push(58);
    v.push(32);
    proof {
        assert(v@ =~= startup_key());
    }
    v
}

/// Builds the literal bytes of `true_lit`.
fn true_lit_vec() -> (v: Vec<u8>)
    ensures
        v@ == true_lit(),
{
    let mut v: Vec<u8> = Vec::new();
    v.push(116);
    v.push(114);
    v.push(117);
    v.push(101);
    proof {
        assert(v@ =~= true_lit());
    }
    v
}

/// Builds the literal bytes of `false_lit`.
fn false_lit_vec() -> (v: Vec<u8>)
    ensures
        v@ == false_lit(),
{
    let mut v: Vec<u8> = Vec::new();
    v.push(102);
    v.push(97);
    v.push(108);
    v.push(115);
    v.push(101);
    proof {
        assert(v@ =~= false_lit());
    }
    v
}

/// Builds the literal bytes of `instances_header`.
fn instances_header_vec() -> (v: Vec<u8>)
    ensures
        v@ == instances_header(),
{
    let mut v: Vec<u8> = Vec::new();
    v.push(105);
    v.push(110);
    v.push(115);
    v.push(116);
    v.push(97);
    v.push(110);
    v.push(99);
    v.push(101);
    v.push(115);
    v.push(58);
    v.push(10);
    proof {
        assert(v@ =~= instances_header());
    }
    v
}

/// Builds the literal bytes of `name_prefix`.
fn name_prefix_vec() -> (v: Vec<u8>)
    ensures
        v@ == name_prefix(),
{
    let mut v: Vec<u8> = Vec::new();
    v.push(32);
    v.push(32);
    v.push(45);
    v.push(32);
    v.push(110);
    v.push(97);
    v.push(109);
    v.push(101);
    v.push(58);
    v.push(32);
    v.push(34);
    proof {
        assert(v@ =~= name_prefix());
    }
    v
}

/// Builds the literal bytes of `path_prefix`.
fn path_prefix_vec() -> (v: Vec<u8>)
    ensures
        v@ == path_prefix(),
{
    let mut v: Vec<u8> = Vec::new();
    v.push(32);
    v.push(32);
    v.push(32);
    v.push(32);
    v.push(112);
    v.push(97);
    v.push(116);
    v.push(104);
    v.push(58);
    v.push(32);
    v.push(34);
    proof {
        assert(v@ =~= path_prefix());
    }
    v
}

/// Builds a one-byte newline literal.
fn newline_vec() -> (v: Vec<u8>)
    ensures
        v@ == seq![NEWLINE],
{
    let mut v: Vec<u8> = Vec::new();
    v.push(NEWLINE);
    proof {
        assert(v@ =~= seq![NEWLINE]);
    }
    v
}

/// Appends all bytes of `src` to `out`.
fn push_all(out: &mut Vec<u8>, src: &Vec<u8>)
    ensures
        final(out)@ == old(out)@ + src@,
{
    let ghost orig = out@;
    let mut j: usize = 0;
    while j < src.len()
        invariant
            j <= src@.len(),
            out@ == orig + src@.take(j as int),
        decreases src@.len() - j,
    {
        out.push(src[j]);
        proof {
            assert(src@.take(j as int + 1) =~= src@.take(j as int) + seq![src@[j as int]]);
            assert(out@ =~= orig + src@.take(j as int + 1));
        }
        j = j + 1;
    }
    proof {
        assert(src@.take(src@.len() as int) =~= src@);
    }
}

/// Appends the escaped form of `src` to `out`.
fn push_escaped(out: &mut Vec<u8>, src: &Vec<u8>)
    ensures
        final(out)@ == old(out)@ + escape_seq(src@),
{
    let ghost orig = out@;
    let mut j: usize = 0;
    while j < src.len()
        invariant
            j <= src@.len(),
            out@ == orig + escape_seq(src@.take(j as int)),
        decreases src@.len() - j,
    {
        let b = src[j];
        if b == BACKSLASH {
            out.push(BACKSLASH);
            out.push(BACKSLASH);
        } else if b == QUOTE {
            out.push(BACKSLASH);
            out.push(QUOTE);
        } else if b == NEWLINE {
            out.push(BACKSLASH);
            out.push(LOWER_N);
        } else {
            out.push(b);
        }
        proof {
            assert(src@.take(j as int + 1) =~= src@.take(j as int) + seq![src@[j as int]]);
            lemma_escape_seq_app(src@.take(j as int), seq![src@[j as int]]);
            assert(escape_seq(seq![src@[j as int]]) =~= escape_byte(src@[j as int])) by {
                let one = seq![src@[j as int]];
                assert(one.skip(1) =~= Seq::<u8>::empty());
                assert(escape_seq(Seq::<u8>::empty()) == Seq::<u8>::empty());
                assert(escape_seq(one) == escape_byte(one[0]) + escape_seq(one.skip(1)));
                assert(escape_byte(one[0]) + Seq::<u8>::empty() =~= escape_byte(one[0]));
            }
            assert(out@ =~= orig + escape_seq(src@.take(j as int + 1)));
        }
        j = j + 1;
    }
    proof {
        assert(src@.take(src@.len() as int) =~= src@);
    }
}

/// Serializes settings and instance list into one configuration document.
pub fn save_config(settings: &Settings, instances: &Vec<Instance>) -> (out: Vec<u8>)
    ensures
        out@ == ser_config(
            ConfigModel {
                launch_on_system_startup: settings.launch_on_system_startup,
                instances: instance_models(instances@),
            },
        ),
{
    let mut out: Vec<u8> = Vec::new();
    let sh = settings_header_vec();
    push_all(&mut out, &sh);
    let sk = startup_key_vec();
    push_all(&mut out, &sk);
    if settings.launch_on_system_startup {
        let t = true_lit_vec();
        push_all(&mut out, &t);
    } else {
        let f = false_lit_vec();
        push_all(&mut out, &f);
    }
    out.push(NEWLINE);
    let ih = instances_header_vec();
    push_all(&mut out, &ih);
    let ghost head = out@;
    proof {
        assert(head =~= ser_settings(settings.launch_on_system_startup) + instances_header());
    }
    let np = name_prefix_vec();
    let pp = path_prefix_vec();
    let mut idx: usize = 0;
    while idx < instances.len()
        invariant
            idx <= instances@.len(),
            np@ == name_prefix(),
            pp@ == path_prefix(),
            out@ == head + ser_instances(instance_models(instances@).take(idx as int)),
        decreases instances@.len() - idx,
    {
        push_all(&mut out, &np);
        push_escaped(&mut out, &instances[idx].name);
        out.push(QUOTE);
        out.push(NEWLINE);
        push_all(&mut out, &pp);
        push_escaped(&mut out, &instances[idx].path);
        out.push(QUOTE);
        out.push(NEWLINE);
        proof {
            let ms = instance_models(instances@);
            assert(ms[idx as int] == instances@[idx as int]@);
            assert(ms.take(idx as int + 1) =~= ms.take(idx as int) + seq![ms[idx as int]]);
            lemma_ser_instances_app(ms.take(idx as int), seq![ms[idx as int]]);
            assert(ser_instances(seq![ms[idx as int]]) =~= ser_instance(ms[idx as int])) by {
                let one = seq![ms[idx as int]];
                assert(one.skip(1) =~= Seq::<InstanceModel>::empty());
                assert(ser_instances(Seq::<InstanceModel>::empty()) == Seq::<u8>::empty());
                assert(ser_instances(one) == ser_instance(one[0]) + ser_instances(one.skip(1)));
                assert(ser_instance(one[0]) + Seq::<u8>::empty() =~= ser_instance(one[0]));
            }
            assert(out@ =~= head + ser_instances(ms.take(idx as int + 1)));
        }
        idx = idx + 1;
    }
    proof {
        assert(instance_models(instances@).take(instances@.len() as int) =~= instance_models(
            instances@,
        ));
    }
    out
}

/// Checks that `input` carries exactly the bytes of `lit` at `pos`; on success
/// returns the position right after them.
fn expect_lit(input: &Vec<u8>, pos: usize, lit: &Vec<u8>) -> (r: Option<usize>)
    requires
        pos <= input@.len(),
    ensures
        match r {
            Some(np) => np == pos + lit@.len() && np <= input@.len() && strip_prefix(
                input@.skip(pos as int),
                lit@,
            ) == Some(input@.skip(np as int)),
            None => strip_prefix(input@.skip(pos as int), lit@) is None,
        },
{
    let n = input.len();
    if n - pos < lit.len() {
        return None;
    }
    let mut i: usize = 0;
    while i < lit.len()
        invariant
            n == input@.len(),
            pos + lit@.len() <= n,
            i <= lit@.len(),
            forall|k: int| 0 <= k < i ==> input@[pos + k] == lit@[k],
        decreases lit@.len() - i,
    {
        if input[pos + i] != lit[i] {
            proof {
                let s = input@.skip(pos as int);
                assert(s.subrange(0, lit@.len() as int)[i as int] == input@[pos + i]);
                assert(s.subrange(0, lit@.len() as int) != lit@);
            }
            return None;
        }
        i = i + 1;
    }
    proof {
        let s = input@.skip(pos as int);
        assert(s.subrange(0, lit@.len() as int) =~= lit@);
        assert(s.skip(lit@.len() as int) =~= input@.skip(pos + lit@.len()));
    }
    Some(pos + lit.len())
}

/// Reads a quoted value starting at `pos` (right after the opening quote):
/// the decoded bytes and the position right after the closing quote.
fn parse_quoted_at(input: &Vec<u8>, pos: usize) -> (r: Result<(Vec<u8>, usize), LauncherError>)
    requires
        pos <= input@.len(),
    ensures
        match r {
            Ok(p) => parse_quoted(input@.skip(pos as int)) == Some((p.0@, p.1 - pos as int)) && pos
                < p.1 <= input@.len(),
            Err(e) => e == LauncherError::ParseError && parse_quoted(input@.skip(pos as int))
                is None,
        },
{
    let mut acc: Vec<u8> = Vec::new();
    let mut j: usize = pos;
    loop
        invariant
            pos <= j <= input@.len(),
            match parse_quoted(input@.skip(j as int)) {
                Some(p) => parse_quoted(input@.skip(pos as int)) == Some(
                    (acc@ + p.0, j - pos + p.1),
                ),
                None => parse_quoted(input@.skip(pos as int)) is None,
            },
        decreases input@.len() - j,
    {
        if j >= input.len() {
            proof {
                assert(input@.skip(j as int) =~= Seq::<u8>::empty());
            }
            return Err(LauncherError::ParseError);
        }
        let b = input[j];
        proof {
            assert(input@.skip(j as int)[0] == input@[j as int]);
        }
        if b == QUOTE {
            proof {
                assert(parse_quoted(input@.skip(j as int)) == Some((Seq::<u8>::empty(), 1int)));
                assert(acc@ + Seq::<u8>::empty() =~= acc@);
            }
            return Ok((acc, j + 1));
        } else if b == BACKSLASH {
            if j + 1 >= input.len() {
                proof {
                    assert(input@.skip(j as int).len() < 2);
                }
                return Err(LauncherError::ParseError);
            }
            let b2 = input[j + 1];
            proof {
                assert(input@.skip(j as int)[1] == input@[j as int + 1]);
            }
            let ghost acc0 = acc@;
            if b2 == BACKSLASH || b2 == QUOTE {
                acc.push(b2);
            } else if b2 == LOWER_N {
                acc.push(NEWLINE);
            } else {
                return Err(LauncherError::ParseError);
            }
            proof {
                assert(input@.skip(j as int).skip(2) =~= input@.skip(j as int + 2));
                let s = input@.skip(j as int);
                let d: u8 = if s[1] == LOWER_N {
                    NEWLINE
                } else {
                    s[1]
                };
                assert(acc@ == acc0.push(d));
                match parse_quoted(input@.skip(j as int + 2)) {
                    Some(p2) => {
                        assert(parse_quoted(s) == Some((seq![d] + p2.0, p2.1 + 2)));
                        assert(acc@ + p2.0 =~= acc0 + (seq![d] + p2.0));
                    },
                    None => {},
                }
            }
            j = j + 2;
        } else if b == NEWLINE {
            return Err(LauncherError::ParseError);
        } else {
            let ghost acc0 = acc@;
            acc.push(b);
            proof {
                assert(input@.skip(j as int).skip(1) =~= input@.skip(j as int + 1));
                let s = input@.skip(j as int);
                match parse_quoted(input@.skip(j as int + 1)) {
                    Some(p2) => {
                        assert(parse_quoted(s) == Some((seq![s[0]] + p2.0, p2.1 + 1)));
                        assert(acc@ + p2.0 =~= acc0 + (seq![s[0]] + p2.0));
                    },
                    None => {},
                }
            }
            j = j + 1;
        }
    }
}

/// Reads one instance record (two lines) starting at `pos`: the record and
/// the position right after it.
fn parse_record_at(
    input: &Vec<u8>,
    pos: usize,
    np: &Vec<u8>,
    pp: &Vec<u8>,
    nl: &Vec<u8>,
) -> (r: Result<(Instance, usize), LauncherError>)
    requires
        pos <= input@.len(),
        np@ == name_prefix(),
        pp@ == path_prefix(),
        nl@ == seq![NEWLINE],
    ensures
        match r {
            Ok(p) => parse_instance(input@.skip(pos as int)) == Some(
                (p.0@, input@.skip(p.1 as int)),
            ) && pos < p.1 <= input@.len(),
            Err(e) => e == LauncherError::ParseError && parse_instance(input@.skip(pos as int))
                is None,
        },
{
    let p6 = match expect_lit(input, pos, np) {
        Some(p) => p,
        None => {
            return Err(LauncherError::ParseError);
        },
    };
    let (name, p7) = match parse_quoted_at(input, p6) {
        Ok(t) => t,
        Err(_) => {
            return Err(LauncherError::ParseError);
        },
    };
    proof {
        assert(input@.skip(p6 as int).skip(p7 as int - p6 as int) =~= input@.skip(p7 as int));
    }
    let p8 = match expect_lit(input, p7, nl) {
        Some(p) => p,
        None => {
            return Err(LauncherError::ParseError);
        },
    };
    let p9 = match expect_lit(input, p8, pp) {
        Some(p) => p,
        None => {
            return Err(LauncherError::ParseError);
        },
    };
    let (path, p10) = match parse_quoted_at(input, p9) {
        Ok(t) => t,
        Err(_) => {
            return Err(LauncherError::ParseError);
        },
    };
    proof {
        assert(input@.skip(p9 as int).skip(p10 as int - p9 as int) =~= input@.skip(p10 as int));
    }
    let p11 = match expect_lit(input, p10, nl) {
        Some(p) => p,
        None => {
            return Err(LauncherError::ParseError);
        },
    };
    proof {
        assert(parse_instance(input@.skip(pos as int)) == Some(
            (InstanceModel { name: name@, path: path@ }, input@.skip(p11 as int)),
        ));
    }
    Ok((Instance { name, path }, p11))
}

/// Parses a configuration document. Returns the settings and the instance
/// list exactly as the document carries them, or `ParseError` if and only if
/// the document is malformed.
pub fn load_configuration(bytes: &Vec<u8>) -> (r: Result<ConfigData, LauncherError>)
    ensures
        match r {
            Ok(d) => parse_config(bytes@) == Some(d@),
            Err(e) => e == LauncherError::ParseError && parse_config(bytes@) is None,
        },
{
    proof {
        assert(bytes@.skip(0) =~= bytes@);
    }
    let sh = settings_header_vec();
    let p1 = match expect_lit(bytes, 0, &sh) {
        Some(p) => p,
        None => {
            return Err(LauncherError::ParseError);
        },
    };
    let sk = startup_key_vec();
    let p2 = match expect_lit(bytes, p1, &sk) {
        Some(p) => p,
        None => {
            return Err(LauncherError::ParseError);
        },
    };
    let tl = true_lit_vec();
    let fl = false_lit_vec();
    let nl = newline_vec();
    let (flag, p3) = match expect_lit(bytes, p2, &tl) {
        Some(p) => (true, p),
        None => match expect_lit(bytes, p2, &fl) {
            Some(p) => (false, p),
            None => {
                return Err(LauncherError::ParseError);
            },
        },
    };
    let p4 = match expect_lit(bytes, p3, &nl) {
        Some(p) => p,
        None => {
            return Err(LauncherError::ParseError);
        },
    };
    proof {
        assert(parse_settings(bytes@) == Some((flag, bytes@.skip(p4 as int))));
    }
    let ih = instances_header_vec();
    let p5 = match expect_lit(bytes, p4, &ih) {
        Some(p) => p,
        None => {
            return Err(LauncherError::ParseError);
        },
    };
    let np = name_prefix_vec();
    let pp = path_prefix_vec();
    let mut instances: Vec<Instance> = Vec::new();
    let mut pos: usize = p5;
    proof {
        assert(instance_models(instances@) =~= Seq::<InstanceModel>::empty());
        match parse_instances(bytes@.skip(p5 as int)) {
            Some(l) => {
                assert(instance_models(instances@) + l =~= l);
            },
            None => {},
        }
    }
    loop
        invariant
            pos <= bytes@.len(),
            np@ == name_prefix(),
            pp@ == path_prefix(),
            nl@ == seq![NEWLINE],
            match parse_instances(bytes@.skip(pos as int)) {
                Some(l) => parse_config(bytes@) == Some(
                    ConfigModel {
                        launch_on_system_startup: flag,
                        instances: instance_models(instances@) + l,
                    },
                ),
                None => parse_config(bytes@) is None,
            },
        decreases bytes@.len() - pos,
    {
        if pos >= bytes.len() {
            proof {
                assert(bytes@.skip(pos as int) =~= Seq::<u8>::empty());
                assert(parse_instances(bytes@.skip(pos as int)) == Some(
                    Seq::<InstanceModel>::empty(),
                ));
                assert(instance_models(instances@) + Seq::<InstanceModel>::empty()
                    =~= instance_models(instances@));
            }
            return Ok(
                ConfigData {
                    settings: Settings { launch_on_system_startup: flag },
                    instances,
                },
            );
        }
        let (inst, p11) = match parse_record_at(bytes, pos, &np, &pp, &nl) {
            Ok(t) => t,
            Err(_) => {
                return Err(LauncherError::ParseError);
            },
        };
        let ghost im = inst@;
        let ghost prev_models = instance_models(instances@);
        instances.push(inst);
        proof {
            assert(instance_models(instances@) =~= prev_models + seq![im]);
            match parse_instances(bytes@.skip(p11 as int)) {
                Some(l2) => {
                    assert(parse_instances(bytes@.skip(pos as int)) == Some(seq![im] + l2));
                    assert((prev_models + seq![im]) + l2 =~= prev_models + (seq![im] + l2));
                },
                None => {},
            }
        }
        pos = p11;
    }
}

} // verus!
