use vstd::prelude::*;
use vstd::utf8::encode_utf8;
use vstd::string::StringSliceAdditionalSpecFns;
use sha2::Digest;
use crate::text::string_from_chars;

verus! {

#[verifier::external_type_specification]
#[verifier::external_body]
pub struct ExJsonValue(serde_json::Value);

/// Whether `serde_yaml::from_str` reads the text as a tree of plain values
/// (`serde_json::Value`: maps with text keys, kept in key order).
pub uninterp spec fn yaml_parses(content: Seq<char>) -> bool;

/// What `serde_yaml::to_string` gives for the tree read from the text: the
/// text written out again in serde_yaml's own layout with the keys of every
/// map in order, or `None` when writing it out fails.
pub uninterp spec fn yaml_rewritten(content: Seq<char>) -> Option<Seq<char>>;

/// Whether `serde_yaml::from_str::<serde_yaml::Value>` reads the text.
pub uninterp spec fn yaml_reads(content: Seq<char>) -> bool;

/// The message of the error that `serde_yaml::from_str::<serde_yaml::Value>`
/// gives for a text it does not read.
pub uninterp spec fn yaml_read_error(content: Seq<char>) -> Seq<char>;

/// What `serde_yaml::to_string` gives for the YAML tree read from the text
/// (keys kept in the order of the text), or `None` when writing it fails.
pub uninterp spec fn yaml_tree_rewritten(content: Seq<char>) -> Option<Seq<char>>;

/// The SHA-256 digest of a byte string (`sha2::Sha256`).
pub uninterp spec fn sha256(data: Seq<u8>) -> Seq<u8>;

#[verifier::external_type_specification]
#[verifier::external_body]
pub struct ExYamlValue(serde_yaml::Value);

/// A YAML document read as a YAML tree (any keys, tags kept), together with
/// the text it was read from.
pub struct YamlTree {
    source: String,
    value: serde_yaml::Value,
}

impl YamlTree {
    /// The text the tree was read from.
    pub closed spec fn source(&self) -> Seq<char> {
        self.source@
    }
}

/// Reads a YAML text as a YAML tree.
///
/// Trusted: `serde_yaml::from_str::<serde_yaml::Value>`; succeeds exactly
/// when the crate reads the text (which is kept beside the tree), and gives
/// the error's message otherwise.
#[verifier::external_body]
pub(crate) fn read_yaml_tree(content: &str) -> (r: Result<YamlTree, String>)
    ensures
        match r {
            Ok(t) => yaml_reads(content@) && t.source() == content@,
            Err(m) => !yaml_reads(content@) && m@ == yaml_read_error(content@),
        },
{
    match serde_yaml::from_str::<serde_yaml::Value>(content) {
        Ok(value) => Ok(YamlTree { source: content.to_string(), value }),
        Err(e) => Err(e.to_string()),
    }
}

/// Writes a YAML tree out as text.
///
/// Trusted: `serde_yaml::to_string` on the tree; `None` when it fails.
#[verifier::external_body]
fn yaml_tree_text(t: &YamlTree) -> (r: Option<String>)
    ensures
        match r {
            Some(s) => yaml_tree_rewritten(t.source()) == Some(s@),
            None => yaml_tree_rewritten(t.source()) is None,
        },
{
    match serde_yaml::to_string(&t.value) {
        Ok(s) => Some(s),
        Err(_) => None,
    }
}

/// A YAML document read as a tree of plain values, together with the text
/// it was read from.
pub struct ParsedYaml {
    source: String,
    value: serde_json::Value,
}

impl ParsedYaml {
    /// The text the value was read from.
    pub closed spec fn source(&self) -> Seq<char> {
        self.source@
    }
}

/// Reads a YAML text as a tree of plain values.
///
/// Trusted: `serde_yaml::from_str::<serde_json::Value>`; succeeds exactly
/// when the crate reads the text, which is kept beside the value.
#[verifier::external_body]
fn parse_yaml_value(content: &str) -> (r: Option<ParsedYaml>)
    ensures
        r is Some <==> yaml_parses(content@),
        r matches Some(p) ==> p.source() == content@,
{
    match serde_yaml::from_str::<serde_json::Value>(content) {
        Ok(value) => Some(ParsedYaml { source: content.to_string(), value }),
        Err(_) => None,
    }
}

/// Writes a tree of plain values out as YAML text.
///
/// Trusted: `serde_yaml::to_string` on the value; `None` when it fails.
#[verifier::external_body]
fn yaml_value_text(p: &ParsedYaml) -> (r: Option<String>)
    ensures
        match r {
            Some(t) => yaml_rewritten(p.source()) == Some(t@),
            None => yaml_rewritten(p.source()) is None,
        },
{
    match serde_yaml::to_string(&p.value) {
        Ok(t) => Some(t),
        Err(_) => None,
    }
}

/// The SHA-256 digest of a byte string.
///
/// Trusted: `sha2::Sha256::digest`; a digest is 32 bytes long.
#[verifier::external_body]
fn sha256_digest(data: &[u8]) -> (d: Vec<u8>)
    ensures
        d@ == sha256(data@),
        d@.len() == 32,
{
    sha2::Sha256::digest(data).to_vec()
}

/// The text whose hash is the configuration's version: the YAML written
/// out again in one layout, keys in order, when it reads as a tree of plain
/// values; else, when it reads as YAML at all (keys that are not text,
/// tags), that YAML tree written out again in one layout; else the text as
/// it is. Layout does not matter, nor key order where keys are text.
pub open spec fn normal_form(content: Seq<char>) -> Seq<char> {
    if yaml_parses(content) {
        match yaml_rewritten(content) {
            Some(t) => t,
            None => content,
        }
    } else if yaml_reads(content) {
        match yaml_tree_rewritten(content) {
            Some(t) => t,
            None => content,
        }
    } else {
        content
    }
}

/// Brings a configuration text to its normal form.
pub fn normalize_yaml(content: &str) -> (s: String)
    ensures
        s@ == normal_form(content@),
{
    match parse_yaml_value(content) {
        Some(p) => match yaml_value_text(&p) {
            Some(t) => t,
            None => content.to_string(),
        },
        None => match read_yaml_tree(content) {
            Ok(t) => match yaml_tree_text(&t) {
                Some(s) => s,
                None => content.to_string(),
            },
            Err(_) => content.to_string(),
        },
    }
}

/// The lower-case hexadecimal digit of a value below 16.
pub open spec fn hex_digit(d: nat) -> char {
    if d < 10 {
        (('0' as nat) + d) as char
    } else {
        (('a' as nat) + d - 10) as char
    }
}

/// Each byte as two lower-case hexadecimal digits, high digit first.
pub open spec fn lower_hex(bytes: Seq<u8>) -> Seq<char>
    decreases bytes.len(),
{
    if bytes.len() == 0 {
        Seq::empty()
    } else {
        let b = bytes.last();
        lower_hex(bytes.drop_last()) + seq![hex_digit((b / 16) as nat), hex_digit((b % 16) as nat)]
    }
}

fn hex_char(d: u8) -> (c: char)
    requires
        d < 16,
    ensures
        c == hex_digit(d as nat),
{
    if d < 10 {
        ((('0' as u8) + d) as char)
    } else {
        ((('a' as u8) + d - 10) as char)
    }
}

/// Writes bytes as lower-case hexadecimal text.
pub fn to_lower_hex(bytes: &[u8]) -> (s: String)
    ensures
        s@ == lower_hex(bytes@),
        s@.len() == 2 * bytes@.len(),
{
    let mut out: Vec<char> = Vec::new();
    let mut i: usize = 0;
    while i < bytes.len()
        invariant
            i <= bytes@.len(),
            out@ == lower_hex(bytes@.take(i as int)),
            out@.len() == 2 * i,
        decreases bytes@.len() - i,
    {
        assert(bytes@.take(i as int + 1).drop_last() =~= bytes@.take(i as int));
        let b = bytes[i];
        out.push(hex_char(b / 16));
        out.push(hex_char(b % 16));
        i += 1;
    }
    assert(bytes@.take(bytes@.len() as int) =~= bytes@);
    string_from_chars(out.as_slice())
}

/// The version hash of a configuration text.
pub open spec fn config_hash_text(content: Seq<char>) -> Seq<char> {
    lower_hex(sha256(encode_utf8(normal_form(content))))
}

/// Computes the version of a configuration from its content: the SHA-256
/// of its normal form (see `normalize_yaml`), as 64 lower-case hexadecimal
/// digits. Equal contents give equal versions.
pub fn compute_config_hash(yaml_content: &str) -> (h: String)
    ensures
        h@ == config_hash_text(yaml_content@),
        h@.len() == 64,
{
    let normalized = normalize_yaml(yaml_content);
    let digest = sha256_digest(normalized.as_str().as_bytes());
    to_lower_hex(digest.as_slice())
}

/// The little-endian value of a byte string.
pub open spec fn le_value(bytes: Seq<u8>) -> nat
    decreases bytes.len(),
{
    if bytes.len() == 0 {
        0
    } else {
        bytes[0] as nat + 256 * le_value(bytes.drop_first())
    }
}

proof fn lemma_le_value_bound(bytes: Seq<u8>)
    ensures
        le_value(bytes) < vstd::arithmetic::power::pow(256, bytes.len()),
    decreases bytes.len(),
{
    vstd::arithmetic::power::lemma_pow_positive(256, bytes.len());
    if bytes.len() > 0 {
        lemma_le_value_bound(bytes.drop_first());
        vstd::arithmetic::power::lemma_pow_adds(256, 1, (bytes.len() - 1) as nat);
        vstd::arithmetic::power::lemma_pow1(256);
        let r = le_value(bytes.drop_first());
        let p = vstd::arithmetic::power::pow(256, (bytes.len() - 1) as nat);
        assert(bytes[0] as nat + 256 * r < 256 * p) by (nonlinear_arith)
            requires
                r < p,
                bytes[0] < 256,
        ;
    }
}

/// The numeric version of a configuration from its hash text: the first
/// eight bytes of the text read as a little-endian number, or 0 when the
/// text is shorter than eight bytes.
pub fn config_version_from_hash(hash: &str) -> (v: u64)
    ensures
        hash.spec_bytes().len() >= 8 ==> v == le_value(hash.spec_bytes().take(8)),
        hash.spec_bytes().len() < 8 ==> v == 0,
{
    let bytes = hash.as_bytes();
    if bytes.len() < 8 {
        return 0;
    }
    let ghost b8 = bytes@.take(8);
    let mut acc: u64 = 0;
    let mut i: usize = 8;
    proof {
        assert(b8.subrange(8, 8) =~= Seq::<u8>::empty());
        vstd::arithmetic::power::lemma_pow0(256);
    }
    while i > 0
        invariant
            i <= 8,
            8 <= bytes@.len(),
            b8 == bytes@.take(8),
            acc == le_value(b8.subrange(i as int, 8)),
        decreases i,
    {
        i -= 1;
        let ghost rest = b8.subrange(i as int + 1, 8);
        assert(b8.subrange(i as int, 8).drop_first() =~= rest);
        proof {
            lemma_le_value_bound(b8.subrange(i as int, 8));
            assert(vstd::arithmetic::power::pow(256, (8 - i) as nat) <= 0x1_0000_0000_0000_0000) by {
                vstd::arithmetic::power::lemma_pow_increases(256, (8 - i) as nat, 8);
                assert(vstd::arithmetic::power::pow(256, 8) == 0x1_0000_0000_0000_0000) by {
                    reveal_with_fuel(vstd::arithmetic::power::pow, 9);
                }
            }
        }
        acc = bytes[i] as u64 + 256 * acc;
    }
    assert(b8.subrange(0, 8) =~= b8);
    acc
}

} // verus!
