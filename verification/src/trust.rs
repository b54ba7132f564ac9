//! Installing the CA certificate into the Linux system trust store: where the
//! certificate goes and which command refreshes the store, the PEM text that
//! is written, and the fallback location shown when no store is known.
use vstd::prelude::*;
use crate::text::{append_chars, chars_of, string_of, subrange_chars};
use base64::Engine;

verus! {

broadcast use vstd::string::group_string_axioms;

/// The character of a 6-bit value in the standard Base64 alphabet: `A`-`Z`,
/// `a`-`z`, `0`-`9`, `+`, `/`.
pub open spec fn base64_char(v: int) -> char {
    if v < 26 {
        (('A' as int) + v) as char
    } else if v < 52 {
        (('a' as int) + (v - 26)) as char
    } else if v < 62 {
        (('0' as int) + (v - 52)) as char
    } else if v == 62 {
        '+'
    } else {
        '/'
    }
}

/// The standard Base64 encoding, with `=` padding: each group of three bytes
/// becomes four characters of six bits each; a last group of two bytes
/// becomes three characters and `=`, of one byte two characters and `==`.
pub open spec fn base64_standard(b: Seq<u8>) -> Seq<char>
    decreases b.len(),
{
    if b.len() == 0 {
        Seq::<char>::empty()
    } else if b.len() == 1 {
        seq![base64_char(b[0] as int / 4), base64_char((b[0] as int % 4) * 16), '=', '=']
    } else if b.len() == 2 {
        seq![
            base64_char(b[0] as int / 4),
            base64_char((b[0] as int % 4) * 16 + b[1] as int / 16),
            base64_char((b[1] as int % 16) * 4),
            '=',
        ]
    } else {
        seq![
            base64_char(b[0] as int / 4),
            base64_char((b[0] as int % 4) * 16 + b[1] as int / 16),
            base64_char((b[1] as int % 16) * 4 + b[2] as int / 64),
            base64_char(b[2] as int % 64),
        ] + base64_standard(b.skip(3))
    }
}

/// Encodes bytes with `base64::engine::general_purpose::STANDARD.encode`.
/// Claimed: the text is the standard Base64 encoding with padding,
/// `base64_standard`. The encoder panics when the encoded length (4
/// characters per started group of 3 bytes) does not fit in a `usize`, so
/// such inputs are excluded.
#[verifier::external_body]
fn base64_encode(bytes: &[u8]) -> (r: String)
    requires
        4 * ((bytes@.len() + 2) / 3) <= usize::MAX,
    ensures
        r@ == base64_standard(bytes@),
{
    base64::engine::general_purpose::STANDARD.encode(bytes)
}

/// A text cut into lines of 64 characters (the last one shorter), each
/// ended by a newline.
pub open spec fn pem_lines(s: Seq<char>) -> Seq<char>
    decreases s.len(),
{
    if s.len() == 0 {
        Seq::<char>::empty()
    } else if s.len() <= 64 {
        s.push('\n')
    } else {
        s.take(64).push('\n') + pem_lines(s.skip(64))
    }
}

pub open spec fn pem_header() -> Seq<char> {
    "-----BEGIN CERTIFICATE-----\n"@
}

pub open spec fn pem_footer() -> Seq<char> {
    "-----END CERTIFICATE-----\n"@
}

/// The PEM text of a DER certificate: header line, the Base64 of the DER in
/// lines of 64 characters, footer line.
pub open spec fn pem_of(der: Seq<u8>) -> Seq<char> {
    pem_header() + pem_lines(base64_standard(der)) + pem_footer()
}

/// DER to PEM, 64 characters per line.
pub fn der_to_pem(der: &[u8]) -> (r: String)
    requires
        4 * ((der@.len() + 2) / 3) <= usize::MAX,
    ensures
        r@ == pem_of(der@),
{
    let b64s = base64_encode(der);
    let b = chars_of(b64s.as_str());
    let mut out = chars_of("-----BEGIN CERTIFICATE-----\n");
    let n = b.len();
    let mut i: usize = 0;
    assert(b@.skip(0) =~= b@);
    while i < n
        invariant
            n == b@.len(),
            i <= n,
            out@ + pem_lines(b@.skip(i as int)) == pem_header() + pem_lines(b@),
        decreases n - i,
    {
        let end = if n - i <= 64 { n } else { i + 64 };
        let chunk = subrange_chars(&b, i, end);
        let ghost rest = b@.skip(i as int);
        let ghost before = out@;
        append_chars(&mut out, &chunk);
        out.push('\n');
        proof {
            if n - i <= 64 {
                assert(chunk@ =~= rest);
                assert(b@.skip(end as int) =~= Seq::<char>::empty());
                assert(out@ + pem_lines(b@.skip(end as int)) =~= before + pem_lines(rest));
            } else {
                assert(chunk@ =~= rest.take(64));
                assert(rest.skip(64) =~= b@.skip(end as int));
                assert(out@ + pem_lines(b@.skip(end as int)) =~= before + pem_lines(rest));
            }
        }
        i = end;
    }
    assert(b@.skip(n as int) =~= Seq::<char>::empty());
    let footer = chars_of("-----END CERTIFICATE-----\n");
    append_chars(&mut out, &footer);
    assert(out@ =~= pem_of(der@));
    string_of(&out)
}

/// Where the certificate goes and how the store is refreshed.
pub struct TrustTarget {
    /// The file the PEM certificate is written to.
    pub file: String,
    /// The command that refreshes the store; empty when no store is known.
    pub command: String,
    pub args: Vec<String>,
}

pub open spec fn strings_view(s: Seq<String>) -> Seq<Seq<char>> {
    Seq::new(s.len(), |i: int| s[i]@)
}

/// The trust store layout of the distribution, judged by which anchor
/// directory exists, in this order: Fedora/RHEL (`update-ca-trust extract`),
/// Debian/Ubuntu (`update-ca-certificates`), Arch (`trust extract-compat`),
/// openSUSE (`update-ca-certificates`); otherwise `Flowly.pem` in the working
/// directory and no command.
pub open spec fn trust_target_of(pki: bool, local_share: bool, trust_source: bool, pki_trust: bool) -> (
    Seq<char>,
    Seq<char>,
    Seq<Seq<char>>,
) {
    if pki {
        ("/etc/pki/ca-trust/source/anchors/Flowly.pem"@, "update-ca-trust"@, seq!["extract"@])
    } else if local_share {
        ("/usr/local/share/ca-certificates/Flowly.crt"@, "update-ca-certificates"@, Seq::empty())
    } else if trust_source {
        ("/etc/ca-certificates/trust-source/anchors/Flowly.crt"@, "trust"@, seq!["extract-compat"@])
    } else if pki_trust {
        ("/usr/share/pki/trust/anchors/Flowly.pem"@, "update-ca-certificates"@, Seq::empty())
    } else {
        ("Flowly.pem"@, Seq::<char>::empty(), Seq::empty())
    }
}

/// The trust target given which of the anchor directories
/// `/etc/pki/ca-trust/source/anchors/`, `/usr/local/share/ca-certificates/`,
/// `/etc/ca-certificates/trust-source/anchors/` and
/// `/usr/share/pki/trust/anchors` exist.
pub fn linux_trust_target(pki: bool, local_share: bool, trust_source: bool, pki_trust: bool) -> (r: TrustTarget)
    ensures
        (r.file@, r.command@, strings_view(r.args@)) == trust_target_of(pki, local_share, trust_source, pki_trust),
{
    let r = if pki {
        TrustTarget {
            file: "/etc/pki/ca-trust/source/anchors/Flowly.pem".to_owned(),
            command: "update-ca-trust".to_owned(),
            args: vec!["extract".to_owned()],
        }
    } else if local_share {
        TrustTarget {
            file: "/usr/local/share/ca-certificates/Flowly.crt".to_owned(),
            command: "update-ca-certificates".to_owned(),
            args: Vec::new(),
        }
    } else if trust_source {
        TrustTarget {
            file: "/etc/ca-certificates/trust-source/anchors/Flowly.crt".to_owned(),
            command: "trust".to_owned(),
            args: vec!["extract-compat".to_owned()],
        }
    } else if pki_trust {
        TrustTarget {
            file: "/usr/share/pki/trust/anchors/Flowly.pem".to_owned(),
            command: "update-ca-certificates".to_owned(),
            args: Vec::new(),
        }
    } else {
        TrustTarget { file: "Flowly.pem".to_owned(), command: String::new(), args: Vec::new() }
    };
    assert(strings_view(r.args@) =~= trust_target_of(pki, local_share, trust_source, pki_trust).2);
    r
}

/// `base` joined with the relative, non-empty component `part` as a Unix
/// path: a `/` goes between them unless `base` is empty or already ends
/// with one.
pub open spec fn path_join(base: Seq<char>, part: Seq<char>) -> Seq<char> {
    if base.len() == 0 || base.last() == '/' {
        base + part
    } else {
        base + seq!['/'] + part
    }
}

fn path_join_exec(base: &Vec<char>, part: &Vec<char>) -> (r: Vec<char>)
    ensures
        r@ == path_join(base@, part@),
{
    let mut r = subrange_chars(base, 0, base.len());
    assert(base@.subrange(0, base@.len() as int) =~= base@);
    if base.len() > 0 && base[base.len() - 1] != '/' {
        r.push('/');
    }
    append_chars(&mut r, part);
    r
}

/// The directory of locally kept CA files: `CAROOT` when set, else
/// `XDG_DATA_HOME`, else `$HOME/.local/share`, else empty.
pub open spec fn ca_root_of(caroot: Option<Seq<char>>, xdg_data_home: Option<Seq<char>>, home: Option<Seq<char>>) -> Seq<char> {
    match caroot {
        Some(v) => v,
        None => match xdg_data_home {
            Some(v) => v,
            None => match home {
                Some(h) => path_join(path_join(h, ".local"@), "share"@),
                None => Seq::<char>::empty(),
            },
        },
    }
}

pub open spec fn opt_view(o: Option<String>) -> Option<Seq<char>> {
    match o {
        Some(s) => Some(s@),
        None => None,
    }
}

/// The directory of locally kept CA files, given the environment variables
/// `CAROOT`, `XDG_DATA_HOME` and `HOME` (each `None` when unset).
pub fn get_ca_root(caroot: Option<String>, xdg_data_home: Option<String>, home: Option<String>) -> (r: String)
    ensures
        r@ == ca_root_of(opt_view(caroot), opt_view(xdg_data_home), opt_view(home)),
{
    if let Some(v) = caroot {
        return v;
    }
    if let Some(v) = xdg_data_home {
        return v;
    }
    match home {
        Some(h) => {
            let base = chars_of(h.as_str());
            let local = chars_of(".local");
            let share = chars_of("share");
            let a = path_join_exec(&base, &local);
            let b = path_join_exec(&a, &share);
            string_of(&b)
        },
        None => String::new(),
    }
}

/// Where the user is told to install the certificate by hand when no trust
/// store is known: `Flowly.pem` in the CA root.
pub fn manual_install_path(ca_root: &str) -> (r: String)
    ensures
        r@ == path_join(ca_root@, "Flowly.pem"@),
{
    let base = chars_of(ca_root);
    let name = chars_of("Flowly.pem");
    string_of(&path_join_exec(&base, &name))
}

} // verus!
