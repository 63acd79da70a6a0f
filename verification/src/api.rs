//! The capability flag set sent when attaching the UI, and the encoder for
//! the one outbound request the core owes the editor: "attach UI with width,
//! height, and a bitset of capability flags", sent once before the read loop
//! starts.

use vstd::prelude::*;
use vstd::string::StringSliceAdditionalSpecFns;

verus! {

broadcast use vstd::slice::axiom_spec_len, vstd::utf8::is_ascii_chars_encode_utf8;

/// The RGB capability flag.
pub const UI_RGB: u16 = 0b1;

/// The override capability flag.
pub const UI_OVERRIDE: u16 = 0b10;

/// The external command line flag.
pub const UI_EXT_CMDLINE: u16 = 0b100;

/// The external highlight state flag.
pub const UI_EXT_HLSTATE: u16 = 0b1000;

/// The line-grid flag.
pub const UI_EXT_LINEGRID: u16 = 0b1_0000;

/// The external messages flag.
pub const UI_EXT_MESSAGES: u16 = 0b10_0000;

/// The multigrid flag.
pub const UI_EXT_MULTIGRID: u16 = 0b100_0000;

/// The external popup menu flag.
pub const UI_EXT_POPUPMENU: u16 = 0b1000_0000;

/// The external tab line flag.
pub const UI_EXT_TABLINE: u16 = 0b1_0000_0000;

/// The terminal colors flag.
pub const UI_EXT_TERMCOLORS: u16 = 0b10_0000_0000;

/// The capability flags the client announces when attaching.
#[derive(Debug, Copy, Clone, PartialEq, Eq, Structural)]
pub struct UiOptions(pub u16);

impl UiOptions {
    /// No capability announced.
    pub fn empty() -> (r: UiOptions)
        ensures
            r.0 == 0,
    {
        UiOptions(0)
    }

    /// The raw bit set.
    pub fn bits(self) -> (r: u16)
        ensures
            r == self.0,
    {
        self.0
    }

    /// Whether every flag of `flags` is set.
    pub fn contains(self, flags: u16) -> (r: bool)
        ensures
            r == (self.0 & flags == flags),
    {
        self.0 & flags == flags
    }

    /// The set with the flags of `flags` added.
    pub fn insert(self, flags: u16) -> (r: UiOptions)
        ensures
            r.0 == self.0 | flags,
    {
        UiOptions(self.0 | flags)
    }

    /// The set with the flags of `flags` removed.
    pub fn remove(self, flags: u16) -> (r: UiOptions)
        ensures
            r.0 == self.0 & !flags,
    {
        UiOptions(self.0 & !flags)
    }
}

/// The encoding of an unsigned integer: the shortest of the format's
/// unsigned forms.
pub open spec fn enc_uint(v: u64) -> Seq<u8> {
    if v < 0x80 {
        seq![v as u8]
    } else if v <= 0xFF {
        seq![0xccu8, v as u8]
    } else if v <= 0xFFFF {
        seq![0xcdu8, (v >> 8) as u8, v as u8]
    } else if v <= 0xFFFF_FFFF {
        seq![0xceu8, (v >> 24) as u8, (v >> 16) as u8, (v >> 8) as u8, v as u8]
    } else {
        seq![
            0xcfu8,
            (v >> 56) as u8,
            (v >> 48) as u8,
            (v >> 40) as u8,
            (v >> 32) as u8,
            (v >> 24) as u8,
            (v >> 16) as u8,
            (v >> 8) as u8,
            v as u8,
        ]
    }
}

/// The encoding of a short string: a one-byte header carrying the length,
/// then the string's bytes.
pub open spec fn enc_fixstr(bytes: Seq<u8>) -> Seq<u8>
    recommends
        bytes.len() < 32,
{
    seq![(0xa0 + bytes.len()) as u8] + bytes
}

/// The encoding of a boolean.
pub open spec fn enc_bool(b: bool) -> Seq<u8> {
    if b {
        seq![0xc3u8]
    } else {
        seq![0xc2u8]
    }
}

/// The header of an array of fewer than 16 elements.
pub open spec fn enc_fixarray(n: nat) -> Seq<u8>
    recommends
        n < 16,
{
    seq![(0x90 + n) as u8]
}

/// The header of a map of fewer than 16 pairs.
pub open spec fn enc_fixmap(n: nat) -> Seq<u8>
    recommends
        n < 16,
{
    seq![(0x80 + n) as u8]
}

/// One capability entry of the attach request's option map.
pub open spec fn enc_flag_pair(key: Seq<char>, opts: u16, flag: u16) -> Seq<u8> {
    enc_fixstr(vstd::utf8::encode_utf8(key)) + enc_bool(opts & flag == flag)
}

/// The whole attach request: a request frame (kind 0) with one unanswered
/// id, the attach method's name, and the three arguments: width, height,
/// and the capability map.
pub open spec fn spec_attach_request(width: u64, height: u64, opts: u16) -> Seq<u8> {
    enc_fixarray(4) + enc_uint(0) + enc_uint(0xFFFF_FFFF) + enc_fixstr(
        vstd::utf8::encode_utf8("nvim_ui_attach"@),
    ) + enc_fixarray(3) + enc_uint(width) + enc_uint(height) + enc_fixmap(10) + enc_flag_pair(
        "rgb"@,
        opts,
        UI_RGB,
    ) + enc_flag_pair("override"@, opts, UI_OVERRIDE) + enc_flag_pair(
        "ext_cmdline"@,
        opts,
        UI_EXT_CMDLINE,
    ) + enc_flag_pair("ext_hlstate"@, opts, UI_EXT_HLSTATE) + enc_flag_pair(
        "ext_linegrid"@,
        opts,
        UI_EXT_LINEGRID,
    ) + enc_flag_pair("ext_messages"@, opts, UI_EXT_MESSAGES) + enc_flag_pair(
        "ext_multigrid"@,
        opts,
        UI_EXT_MULTIGRID,
    ) + enc_flag_pair("ext_popupmenu"@, opts, UI_EXT_POPUPMENU) + enc_flag_pair(
        "ext_tabline"@,
        opts,
        UI_EXT_TABLINE,
    ) + enc_flag_pair("ext_termcolors"@, opts, UI_EXT_TERMCOLORS)
}

/// Appends the encoding of an unsigned integer.
fn push_uint(out: &mut Vec<u8>, v: u64)
    ensures
        final(out)@ == old(out)@ + enc_uint(v),
{
    if v < 0x80 {
        out.push(v as u8);
        proof {
            assert(final(out)@ =~= old(out)@ + enc_uint(v));
        }
    } else if v <= 0xFF {
        out.push(0xcc);
        out.push(#[verifier::truncate] (v as u8));
        proof {
            assert(final(out)@ =~= old(out)@ + enc_uint(v));
        }
    } else if v <= 0xFFFF {
        out.push(0xcd);
        out.push(#[verifier::truncate] ((v >> 8) as u8));
        out.push(#[verifier::truncate] (v as u8));
        proof {
            assert(final(out)@ =~= old(out)@ + enc_uint(v));
        }
    } else if v <= 0xFFFF_FFFF {
        out.push(0xce);
        out.push(#[verifier::truncate] ((v >> 24) as u8));
        out.push(#[verifier::truncate] ((v >> 16) as u8));
        out.push(#[verifier::truncate] ((v >> 8) as u8));
        out.push(#[verifier::truncate] (v as u8));
        proof {
            assert(final(out)@ =~= old(out)@ + enc_uint(v));
        }
    } else {
        out.push(0xcf);
        out.push(#[verifier::truncate] ((v >> 56) as u8));
        out.push(#[verifier::truncate] ((v >> 48) as u8));
        out.push(#[verifier::truncate] ((v >> 40) as u8));
        out.push(#[verifier::truncate] ((v >> 32) as u8));
        out.push(#[verifier::truncate] ((v >> 24) as u8));
        out.push(#[verifier::truncate] ((v >> 16) as u8));
        out.push(#[verifier::truncate] ((v >> 8) as u8));
        out.push(#[verifier::truncate] (v as u8));
        proof {
            assert(final(out)@ =~= old(out)@ + enc_uint(v));
        }
    }
}

/// Appends the encoding of a short string.
fn push_fixstr(out: &mut Vec<u8>, s: &str)
    requires
        s@.len() < 32,
        vstd::string::is_ascii(s),
    ensures
        final(out)@ == old(out)@ + enc_fixstr(s.spec_bytes()),
{
    proof {
        assert(s.spec_bytes().len() == s@.len());
    }
    let bytes = s.as_bytes();
    let n = bytes.len();
    out.push(0xa0 + (n as u8));
    let mut i: usize = 0;
    while i < n
        invariant
            i <= n == bytes@.len() < 32,
            bytes@ == s.spec_bytes(),
            out@ == old(out)@ + seq![(0xa0 + bytes@.len()) as u8] + bytes@.take(i as int),
        decreases n - i,
    {
        out.push(bytes[i]);
        proof {
            assert(out@ =~= old(out)@ + seq![(0xa0 + bytes@.len()) as u8] + bytes@.take(i + 1));
        }
        i = i + 1;
    }
    proof {
        assert(bytes@.take(n as int) =~= bytes@);
        assert(out@ =~= old(out)@ + enc_fixstr(s.spec_bytes()));
    }
}

/// Appends the encoding of a boolean.
fn push_bool(out: &mut Vec<u8>, b: bool)
    ensures
        final(out)@ == old(out)@ + enc_bool(b),
{
    if b {
        out.push(0xc3);
    } else {
        out.push(0xc2);
    }
    proof {
        assert(final(out)@ =~= old(out)@ + enc_bool(b));
    }
}

/// Appends one capability entry of the option map.
fn push_flag_pair(out: &mut Vec<u8>, key: &str, opts: UiOptions, flag: u16)
    requires
        key@.len() < 32,
        vstd::string::is_ascii(key),
    ensures
        final(out)@ == old(out)@ + enc_flag_pair(key@, opts.0, flag),
{
    push_fixstr(out, key);
    push_bool(out, opts.contains(flag));
    proof {
        assert(final(out)@ =~= old(out)@ + enc_flag_pair(key@, opts.0, flag));
    }
}

/// Builds the bytes of the attach request: the one outbound call the core
/// owes the editor, carrying the requested grid size and the capability
/// flags.
pub fn ui_attach_request(width: u64, height: u64, opts: UiOptions) -> (r: Vec<u8>)
    ensures
        r@ == spec_attach_request(width, height, opts.0),
{
    let mut out: Vec<u8> = Vec::new();
    proof {
        assert(out@ =~= Seq::<u8>::empty());
        reveal_strlit("nvim_ui_attach");
        reveal_strlit("rgb");
        reveal_strlit("override");
        reveal_strlit("ext_cmdline");
        reveal_strlit("ext_hlstate");
        reveal_strlit("ext_linegrid");
        reveal_strlit("ext_messages");
        reveal_strlit("ext_multigrid");
        reveal_strlit("ext_popupmenu");
        reveal_strlit("ext_tabline");
        reveal_strlit("ext_termcolors");
        broadcast use vstd::utf8::is_ascii_chars_encode_utf8;
    }
    out.push(0x94);
    proof {
        assert(out@ =~= enc_fixarray(4));
    }
    push_uint(&mut out, 0);
    push_uint(&mut out, 0xFFFF_FFFF);
    push_fixstr(&mut out, "nvim_ui_attach");
    out.push(0x93);
    push_uint(&mut out, width);
    push_uint(&mut out, height);
    out.push(0x8a);
    proof {
        assert(enc_fixarray(3) =~= seq![0x93u8]);
        assert(enc_fixmap(10) =~= seq![0x8au8]);
    }
    push_flag_pair(&mut out, "rgb", opts, UI_RGB);
    push_flag_pair(&mut out, "override", opts, UI_OVERRIDE);
    push_flag_pair(&mut out, "ext_cmdline", opts, UI_EXT_CMDLINE);
    push_flag_pair(&mut out, "ext_hlstate", opts, UI_EXT_HLSTATE);
    push_flag_pair(&mut out, "ext_linegrid", opts, UI_EXT_LINEGRID);
    push_flag_pair(&mut out, "ext_messages", opts, UI_EXT_MESSAGES);
    push_flag_pair(&mut out, "ext_multigrid", opts, UI_EXT_MULTIGRID);
    push_flag_pair(&mut out, "ext_popupmenu", opts, UI_EXT_POPUPMENU);
    push_flag_pair(&mut out, "ext_tabline", opts, UI_EXT_TABLINE);
    push_flag_pair(&mut out, "ext_termcolors", opts, UI_EXT_TERMCOLORS);
    proof {
        assert(out@ =~= spec_attach_request(width, height, opts.0));
    }
    out
}

} // verus!
