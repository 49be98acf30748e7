//! Operator requests: what is checked before anything is sent to a target, and
//! how the outcome is reported and audited.

use vstd::prelude::*;

use crate::codec::{base64_decode, base64_decoded, hex_bytes, hex_decode, hex_encode, hex_text, is_hex};
use crate::protocol::aproto::AckResponse;
use crate::text::{
    chars_of, contains_text, dec, has_prefix, hex_u32_value, hex_upper, occurs_in, parse_hex_u32,
    parse_unsigned, push_dec, push_hex, starts_with_text, strip_hex_prefix, unsigned_value,
    without_hex_prefix,
};

verus! {

pub const BAD_REQUEST: u16 = 400;

pub const NOT_FOUND: u16 = 404;

pub const PAYLOAD_TOO_LARGE: u16 = 413;

pub const BAD_GATEWAY: u16 = 502;

/// A request that is turned down: a status code and the reason.
#[derive(Debug, Clone)]
pub struct Refusal {
    pub status: u16,
    pub text: String,
}

impl Refusal {
    /// Whether the refusal is this one.
    pub open spec fn is(self, status: u16, text: Seq<char>) -> bool {
        self.status == status && self.text@ == text
    }
}

fn refusal(status: u16, text: &str) -> (r: Refusal)
    ensures
        r.is(status, text@),
{
    Refusal { status, text: text.to_owned() }
}

/// The refusal of a request for a target that is not there.
pub fn target_not_found(id: &str) -> (r: Refusal)
    ensures
        r.is(NOT_FOUND, "Target '"@ + id@ + "' not found"@),
{
    let mut text: String = "Target '".to_owned();
    text.append(id);
    text.append("' not found");
    Refusal { status: NOT_FOUND, text }
}

// ------------------------------------------------------------------ addresses

/// A component address in a path: hexadecimal, with or without `0x`.
pub fn parse_full_uid(s: &str) -> (r: Result<u32, Refusal>)
    ensures
        match r {
            Ok(uid) => hex_u32_value(s@) == Some(uid),
            Err(e) => hex_u32_value(s@) is None && e.is(BAD_REQUEST, "Invalid fullUid: "@ + s@),
        },
{
    match parse_hex_u32(s) {
        Some(uid) => Ok(uid),
        None => {
            let mut text: String = "Invalid fullUid: ".to_owned();
            text.append(s);
            Err(Refusal { status: BAD_REQUEST, text })
        },
    }
}

/// Whether a number is written with a hexadecimal prefix.
pub open spec fn is_prefixed(s: Seq<char>) -> bool {
    has_prefix(s, "0x"@) || has_prefix(s, "0X"@)
}

/// A number in a command request: hexadecimal with a prefix, decimal without one;
/// digits that are no decimal number are taken for hexadecimal.
pub open spec fn number_value(s: Seq<char>, max: nat) -> Option<nat> {
    if is_prefixed(s) {
        unsigned_value(without_hex_prefix(s), 16, max)
    } else {
        match unsigned_value(s, 10, max) {
            Some(n) => Some(n),
            None => unsigned_value(s, 16, max),
        }
    }
}

proof fn nothing_to_strip(s: Seq<char>)
    requires
        !is_prefixed(s),
    ensures
        without_hex_prefix(s) == s,
{
    reveal_strlit("0x");
    reveal_strlit("0X");
    reveal_with_fuel(crate::text::without_prefixes, 2);
    if s.len() >= 2 && s[0] == '0' && s[1] == 'x' {
        assert(s.take(2) =~= "0x"@);
    }
    if s.len() >= 2 && s[0] == '0' && s[1] == 'X' {
        assert(s.take(2) =~= "0X"@);
    }
}

fn parse_number(s: &str, max: u64) -> (r: Option<u64>)
    requires
        max <= u32::MAX,
    ensures
        match r {
            Some(n) => number_value(s@, max as nat) == Some(n as nat) && n <= max,
            None => number_value(s@, max as nat) is None,
        },
{
    if !starts_with_text(s, "0x") && !starts_with_text(s, "0X") {
        let chars = chars_of(s);
        match parse_unsigned(chars.as_slice(), 10, max) {
            Some(n) => {
                return Some(n);
            },
            None => {},
        }
        proof {
            nothing_to_strip(s@);
        }
    }
    let digits = strip_hex_prefix(s);
    parse_unsigned(digits.as_slice(), 16, max)
}

// ------------------------------------------------------------------- commands

/// A command request that passed its checks.
#[derive(Debug)]
pub struct CommandRequest {
    pub full_uid: u32,
    pub opcode: u16,
    pub payload: Vec<u8>,
    /// What the audit log says of it.
    pub detail: String,
}

/// What the audit log says of a command.
pub open spec fn command_detail(uid: u32, opcode: u16, payload: nat) -> Seq<char> {
    "uid=0x"@ + hex_upper(uid as nat, 6) + " opcode=0x"@ + hex_upper(opcode as nat, 4)
        + " payload_len="@ + dec(payload)
}

/// Checks a command request: a component address, an opcode, and a payload in
/// hexadecimal that may be empty.
pub fn prepare_command(full_uid: &str, opcode: &str, payload_hex: &str) -> (r: Result<
    CommandRequest,
    Refusal,
>)
    ensures
        ({
            let uid = number_value(full_uid@, u32::MAX as nat);
            let op = number_value(opcode@, u16::MAX as nat);
            match r {
                Ok(c) => {
                    &&& uid == Some(c.full_uid as nat)
                    &&& op == Some(c.opcode as nat)
                    &&& is_hex(payload_hex@)
                    &&& c.payload@ == hex_bytes(payload_hex@)
                    &&& c.detail@ == command_detail(c.full_uid, c.opcode, c.payload@.len())
                },
                Err(e) => if uid is None {
                    e.is(BAD_REQUEST, "Invalid fullUid: "@ + full_uid@)
                } else if op is None {
                    e.is(BAD_REQUEST, "Invalid opcode: "@ + opcode@)
                } else {
                    !is_hex(payload_hex@) && e.is(BAD_REQUEST, "Invalid payload_hex"@)
                },
            }
        }),
{
    let uid: u32 = match parse_number(full_uid, u32::MAX as u64) {
        Some(n) => n as u32,
        None => {
            let mut text: String = "Invalid fullUid: ".to_owned();
            text.append(full_uid);
            return Err(Refusal { status: BAD_REQUEST, text });
        },
    };
    let op: u16 = match parse_number(opcode, u16::MAX as u64) {
        Some(n) => n as u16,
        None => {
            let mut text: String = "Invalid opcode: ".to_owned();
            text.append(opcode);
            return Err(Refusal { status: BAD_REQUEST, text });
        },
    };
    let payload = match hex_decode(payload_hex) {
        Ok(data) => data,
        Err(_) => {
            return Err(refusal(BAD_REQUEST, "Invalid payload_hex"));
        },
    };
    let mut detail: String = "uid=0x".to_owned();
    push_hex(&mut detail, uid as u64, 6, true);
    detail.append(" opcode=0x");
    push_hex(&mut detail, op as u64, 4, true);
    detail.append(" payload_len=");
    push_dec(&mut detail, payload.len() as u64);
    assert(detail@ =~= command_detail(uid, op, payload@.len()));
    Ok(CommandRequest { full_uid: uid, opcode: op, payload, detail })
}

/// A command's response as it is reported.
#[derive(Debug)]
pub struct CommandResponse {
    pub status: u8,
    pub status_name: String,
    pub extra_hex: Option<String>,
    pub extra_length: Option<usize>,
}

/// Reports a command's response; extra data is shown only where there is some.
pub fn to_cmd_response(resp: AckResponse) -> (r: CommandResponse)
    ensures
        r.status == resp.status,
        r.status_name@ == resp.status_name@,
        match r.extra_hex {
            Some(t) => resp.extra@.len() > 0 && t@ == hex_text(resp.extra@),
            None => resp.extra@.len() == 0,
        },
        match r.extra_length {
            Some(n) => resp.extra@.len() > 0 && n == resp.extra@.len(),
            None => resp.extra@.len() == 0,
        },
{
    let n: usize = resp.extra.len();
    if n == 0 {
        CommandResponse {
            status: resp.status,
            status_name: resp.status_name,
            extra_hex: None,
            extra_length: None,
        }
    } else {
        CommandResponse {
            status: resp.status,
            status_name: resp.status_name,
            extra_hex: Some(hex_encode(resp.extra.as_slice())),
            extra_length: Some(n),
        }
    }
}

/// How the audit log records the answer to a command.
pub fn audit_status(status: u8, status_name: &str) -> (t: String)
    ensures
        t@ == if status == 0 {
            "ok"@
        } else {
            "nak: "@ + status_name@
        },
{
    if status == 0 {
        "ok".to_owned()
    } else {
        let mut t: String = "nak: ".to_owned();
        t.append(status_name);
        t
    }
}

/// How the audit log records that there was no answer.
pub fn audit_error(message: &str) -> (t: String)
    ensures
        t@ == "err: "@ + message@,
{
    let mut t: String = "err: ".to_owned();
    t.append(message);
    t
}

// -------------------------------------------------------------------- uploads

/// Whether a path has a `..` segment at `i`.
pub open spec fn parent_at(path: Seq<char>, i: int) -> bool {
    &&& 0 <= i
    &&& i + 2 <= path.len()
    &&& path[i] == '.' && path[i + 1] == '.'
    &&& i == 0 || path[i - 1] == '/'
    &&& i + 2 == path.len() || path[i + 2] == '/'
}

/// Whether a path is relative and has no parent traversal: not empty, not from
/// the root, no segment `..`.
pub open spec fn is_safe_path(path: Seq<char>) -> bool {
    &&& path.len() > 0
    &&& path[0] != '/'
    &&& forall|i: int| !#[trigger] parent_at(path, i)
}

fn safe_path(path: &str) -> (r: bool)
    ensures
        r == is_safe_path(path@),
{
    let chars = chars_of(path);
    let n: usize = chars.len();
    if n == 0 || chars[0] == '/' {
        return false;
    }
    let mut i: usize = 0;
    while i < n
        invariant
            chars@ == path@,
            n == path@.len(),
            i <= n,
            forall|j: int| j < i ==> !#[trigger] parent_at(path@, j),
        decreases n - i,
    {
        if n - i >= 2 && chars[i] == '.' && chars[i + 1] == '.' && (i == 0 || chars[i - 1] == '/')
            && (n - i == 2 || chars[i + 2] == '/') {
            assert(parent_at(path@, i as int));
            return false;
        }
        assert(!parent_at(path@, i as int));
        i = i + 1;
    }
    true
}

/// Bytes in so many megabytes.
pub open spec fn megabytes(mb: u32) -> int {
    mb * 1_048_576
}

/// Why an upload is turned down before its content is decoded.
pub open spec fn upload_refusal(path: Seq<char>, content_bytes: nat, max_mb: u32) -> Option<
    (u16, Seq<char>),
> {
    if !is_safe_path(path) {
        Some((BAD_REQUEST, "remote_path must be relative with no parent traversal"@))
    } else if content_bytes / 4 * 3 > megabytes(max_mb) {
        Some((PAYLOAD_TOO_LARGE, "upload exceeds "@ + dec(max_mb as nat) + " MB cap"@))
    } else {
        None
    }
}

/// An upload that passed its checks.
#[derive(Debug)]
pub struct UploadRequest {
    pub data: Vec<u8>,
    /// What the audit log says of it.
    pub detail: String,
}

/// What the audit log says of an upload.
pub open spec fn upload_detail(path: Seq<char>, bytes: nat) -> Seq<char> {
    "path="@ + path + " bytes="@ + dec(bytes)
}

/// What an upload comes to once its content is decoded.
pub open spec fn upload_outcome(
    r: Result<UploadRequest, Refusal>,
    path: Seq<char>,
    decoded: Result<Seq<u8>, Seq<char>>,
) -> bool {
    match decoded {
        Ok(data) => r matches Ok(u) && u.data@ == data && u.detail@ == upload_detail(
            path,
            data.len(),
        ),
        Err(e) => r matches Err(x) && x.is(BAD_REQUEST, "Invalid base64: "@ + e),
    }
}

/// The contents of a decoding.
pub open spec fn decoding(r: Result<Vec<u8>, String>) -> Result<Seq<u8>, Seq<char>> {
    match r {
        Ok(data) => Ok(data@),
        Err(e) => Err(e@),
    }
}

fn invalid_base64(e: &str) -> (r: Refusal)
    ensures
        r.is(BAD_REQUEST, "Invalid base64: "@ + e@),
{
    let mut text: String = "Invalid base64: ".to_owned();
    text.append(e);
    Refusal { status: BAD_REQUEST, text }
}

/// Takes the decoded content of an upload.
pub fn decoded_upload(remote_path: &str, decoded: Result<Vec<u8>, String>) -> (r: Result<
    UploadRequest,
    Refusal,
>)
    ensures
        upload_outcome(r, remote_path@, decoding(decoded)),
{
    match decoded {
        Ok(data) => {
            let mut detail: String = "path=".to_owned();
            detail.append(remote_path);
            detail.append(" bytes=");
            push_dec(&mut detail, data.len() as u64);
            Ok(UploadRequest { data, detail })
        },
        Err(e) => Err(invalid_base64(e.as_str())),
    }
}

fn over_cap(what: &str, max_mb: u32) -> (r: Refusal)
    ensures
        r.is(PAYLOAD_TOO_LARGE, what@ + dec(max_mb as nat) + " MB cap"@),
{
    let mut text: String = what.to_owned();
    push_dec(&mut text, max_mb as u64);
    text.append(" MB cap");
    Refusal { status: PAYLOAD_TOO_LARGE, text }
}

/// Checks an upload: where it goes, its size (before it is decoded), and that its
/// content decodes.
pub fn prepare_upload(remote_path: &str, content_base64: &str, max_mb: u32) -> (r: Result<
    UploadRequest,
    Refusal,
>)
    ensures
        match upload_refusal(
            remote_path@,
            vstd::utf8::encode_utf8(content_base64@).len(),
            max_mb,
        ) {
            Some((status, text)) => r matches Err(e) && e.is(status, text),
            None => upload_outcome(r, remote_path@, base64_decoded(content_base64@)),
        },
        r matches Ok(u) ==> u.data@.len() <= megabytes(max_mb),
{
    if !safe_path(remote_path) {
        return Err(
            refusal(BAD_REQUEST, "remote_path must be relative with no parent traversal"),
        );
    }
    let bytes: usize = content_base64.as_bytes().len();
    if (bytes / 4 * 3) as u64 > max_mb as u64 * 1_048_576 {
        return Err(over_cap("upload exceeds ", max_mb));
    }
    decoded_upload(remote_path, base64_decode(content_base64))
}

// ------------------------------------------------------------- library swaps

/// A library swap that passed its checks.
#[derive(Debug)]
pub struct SwapRequest {
    pub full_uid: u32,
    pub data: Vec<u8>,
    /// What the audit log says of it.
    pub detail: String,
}

/// Bank that a swap goes to when it names none.
pub fn default_inactive_bank() -> (r: String)
    ensures
        r@ == "bank_b"@,
{
    "bank_b".to_owned()
}

/// Whether a name cannot leave the directory it is put in.
pub open spec fn is_plain(name: Seq<char>) -> bool {
    !name.contains('/') && !occurs_in(name, ".."@)
}

fn plain(name: &str) -> (r: bool)
    ensures
        r == is_plain(name@),
{
    let chars = chars_of(name);
    for i in 0..chars.len()
        invariant
            chars@ == name@,
            forall|j: int| 0 <= j < i ==> name@[j] != '/',
    {
        if chars[i] == '/' {
            assert(name@[i as int] == '/');
            return false;
        }
    }
    !contains_text(name, "..")
}

/// What the audit log says of a swap.
pub open spec fn swap_detail(
    uid: u32,
    component: Seq<char>,
    index: u32,
    bank: Seq<char>,
    bytes: nat,
) -> Seq<char> {
    "uid=0x"@ + hex_upper(uid as nat, 6) + " comp="@ + component + " idx="@ + dec(index as nat)
        + " bank="@ + bank + " bytes="@ + dec(bytes)
}

/// What a swap comes to once its address is known and its content decoded.
pub open spec fn swap_outcome(
    r: Result<SwapRequest, Refusal>,
    uid: u32,
    component: Seq<char>,
    index: u32,
    bank: Seq<char>,
    decoded: Result<Seq<u8>, Seq<char>>,
    max_mb: u32,
) -> bool {
    match decoded {
        Ok(data) => if data.len() == 0 {
            r matches Err(e) && e.is(BAD_REQUEST, "empty .so payload"@)
        } else if data.len() > megabytes(max_mb) {
            r matches Err(e) && e.is(
                PAYLOAD_TOO_LARGE,
                "library exceeds "@ + dec(max_mb as nat) + " MB cap"@,
            )
        } else if !is_plain(component) || !is_plain(bank) {
            r matches Err(e) && e.is(
                BAD_REQUEST,
                "component_name and inactive_bank must be plain names"@,
            )
        } else {
            r matches Ok(s) && s.full_uid == uid && s.data@ == data && s.detail@ == swap_detail(
                uid,
                component,
                index,
                bank,
                data.len(),
            )
        },
        Err(e) => r matches Err(x) && x.is(BAD_REQUEST, "Invalid base64: "@ + e),
    }
}

/// Takes the decoded content of a library swap.
pub fn decoded_swap(
    full_uid: u32,
    component_name: &str,
    instance_index: u32,
    inactive_bank: &str,
    decoded: Result<Vec<u8>, String>,
    max_mb: u32,
) -> (r: Result<SwapRequest, Refusal>)
    ensures
        swap_outcome(
            r,
            full_uid,
            component_name@,
            instance_index,
            inactive_bank@,
            decoding(decoded),
            max_mb,
        ),
{
    let data = match decoded {
        Ok(data) => data,
        Err(e) => {
            return Err(invalid_base64(e.as_str()));
        },
    };
    if data.len() == 0 {
        return Err(refusal(BAD_REQUEST, "empty .so payload"));
    }
    if data.len() as u64 > max_mb as u64 * 1_048_576 {
        return Err(over_cap("library exceeds ", max_mb));
    }
    if !plain(component_name) || !plain(inactive_bank) {
        return Err(refusal(BAD_REQUEST, "component_name and inactive_bank must be plain names"));
    }
    let mut detail: String = "uid=0x".to_owned();
    push_hex(&mut detail, full_uid as u64, 6, true);
    detail.append(" comp=");
    detail.append(component_name);
    detail.append(" idx=");
    push_dec(&mut detail, instance_index as u64);
    detail.append(" bank=");
    detail.append(inactive_bank);
    detail.append(" bytes=");
    push_dec(&mut detail, data.len() as u64);
    assert(detail@ =~= swap_detail(
        full_uid,
        component_name@,
        instance_index,
        inactive_bank@,
        data@.len(),
    ));
    Ok(SwapRequest { full_uid, data, detail })
}

/// Checks a library swap: the component's address, that the content decodes to
/// something within the cap, and that its names stay within the bank.
pub fn prepare_swap(
    uid: &str,
    component_name: &str,
    instance_index: u32,
    inactive_bank: &str,
    content_base64: &str,
    max_mb: u32,
) -> (r: Result<SwapRequest, Refusal>)
    ensures
        match hex_u32_value(uid@) {
            Some(full_uid) => swap_outcome(
                r,
                full_uid,
                component_name@,
                instance_index,
                inactive_bank@,
                base64_decoded(content_base64@),
                max_mb,
            ),
            None => r matches Err(e) && e.is(BAD_REQUEST, "Invalid fullUid: "@ + uid@),
        },
{
    match parse_full_uid(uid) {
        Ok(full_uid) => decoded_swap(
            full_uid,
            component_name,
            instance_index,
            inactive_bank,
            base64_decode(content_base64),
            max_mb,
        ),
        Err(e) => Err(e),
    }
}

// ----------------------------------------------------------------- raw images

/// The image that a parameter update was read from: none, or bytes in
/// hexadecimal.
pub fn raw_image(raw_hex: Option<&str>) -> (r: Result<Option<Vec<u8>>, Refusal>)
    ensures
        match raw_hex {
            None => r matches Ok(None),
            Some(t) => match r {
                Ok(Some(data)) => is_hex(t@) && data@ == hex_bytes(t@),
                Ok(None) => false,
                Err(e) => !is_hex(t@) && e.is(
                    BAD_REQUEST,
                    "Invalid raw_hex: "@ + crate::codec::hex_error_text(t@),
                ),
            },
        },
{
    match raw_hex {
        None => Ok(None),
        Some(t) => match hex_decode(t) {
            Ok(data) => Ok(Some(data)),
            Err(e) => {
                let mut text: String = "Invalid raw_hex: ".to_owned();
                text.append(e.as_str());
                Err(Refusal { status: BAD_REQUEST, text })
            },
        },
    }
}

// ----------------------------------------------------------------------- laws

/// A path that is accepted for an upload stays below the directory it is put in:
/// however it is cut at slashes, no piece of it is `..`.
pub proof fn accepted_paths_stay_below(path: Seq<char>, from: int, to: int)
    requires
        is_safe_path(path),
        0 <= from <= to <= path.len(),
        from == 0 || path[from - 1] == '/',
        to == path.len() || path[to] == '/',
    ensures
        path[0] != '/',
        path.subrange(from, to) != ".."@,
{
    reveal_strlit("..");
    if path.subrange(from, to) == ".."@ {
        assert(".."@.len() == 2 && path.subrange(from, to).len() == to - from);
        assert(path.subrange(from, to)[0] == path[from]);
        assert(path.subrange(from, to)[1] == path[from + 1]);
        assert(parent_at(path, from));
    }
}

/// Reporting loses nothing of a response's extra data: decoding what is shown
/// gives the data back.
pub proof fn shown_extra_decodes(extra: Seq<u8>)
    ensures
        is_hex(hex_text(extra)),
        hex_bytes(hex_text(extra)) == extra,
{
    let t = hex_text(extra);
    assert forall|i: int| 0 <= i < t.len() implies crate::text::digit_value(
        #[trigger] t[i],
        16,
    ) is Some by {
        hex_digit_reads_back((extra[i / 2] / 16) as nat);
        hex_digit_reads_back((extra[i / 2] % 16) as nat);
    }
    assert forall|i: int| 0 <= i < extra.len() implies #[trigger] hex_bytes(t)[i] == extra[i] by {
        hex_digit_reads_back((extra[i] / 16) as nat);
        hex_digit_reads_back((extra[i] % 16) as nat);
        assert(t[2 * i] == crate::text::digit((extra[i] / 16) as nat, false));
        assert(t[2 * i + 1] == crate::text::digit((extra[i] % 16) as nat, false));
    }
    assert(hex_bytes(t) =~= extra);
}

proof fn hex_digit_reads_back(d: nat)
    requires
        d < 16,
    ensures
        crate::text::digit_value(crate::text::digit(d, false), 16) == Some(d),
{
}

/// A number in a request reads back as the number it was written from: in decimal without
/// a prefix, in hexadecimal of either case with one.
pub proof fn request_numbers_read_back(n: nat, width: nat, upper: bool, max: nat)
    requires
        n <= max,
    ensures
        number_value(dec(n), max) == Some(n),
        number_value(
            "0x"@ + crate::text::zero_padded(crate::text::digits(n, 16, upper), width),
            max,
        ) == Some(n),
        number_value(
            "0X"@ + crate::text::zero_padded(crate::text::digits(n, 16, upper), width),
            max,
        ) == Some(n),
{
    let d = dec(n);
    crate::text::digits_read_back(n, 10, false);
    reveal_strlit("0x");
    reveal_strlit("0X");
    if is_prefixed(d) {
        assert(d.subrange(0, 2)[1] == d[1]);
        assert("0x"@[1] == 'x' && "0X"@[1] == 'X');
        assert(crate::text::digit_value(d[1], 10) is Some);
    }
    assert(d[0] != '+') by {
        assert(crate::text::digit_value(d[0], 10) is Some);
    }
    let h = crate::text::digits(n, 16, upper);
    let s = crate::text::zero_padded(h, width);
    crate::text::digits_read_back(n, 16, upper);
    crate::text::padding_keeps_the_value(h, width, 16);
    assert forall|i: int| 0 <= i < s.len() implies s[i] != 'x' && s[i] != 'X' && #[trigger] s[i]
        != '+' by {
        if s.len() > h.len() && i >= s.len() - h.len() {
            assert(s[i] == h[i - (s.len() - h.len())]);
        }
        assert(s[i] == '0' || crate::text::digit_value(s[i], 16) is Some);
    }
    let a = "0x"@ + s;
    let b = "0X"@ + s;
    assert(a.subrange(0, 2) =~= "0x"@ && b.subrange(0, 2) =~= "0X"@);
    assert(a[0] == '0' && a[1] == 'x' && a.skip(2) =~= s);
    assert(b[0] == '0' && b[1] == 'X' && b.skip(2) =~= s);
    reveal_with_fuel(crate::text::without_prefixes, 2);
    assert(without_hex_prefix(a) == s);
    assert(without_hex_prefix(b) == s);
}

/// A number beyond its limit is refused, however it is written.
pub proof fn request_numbers_stay_within_their_limit(s: Seq<char>, max: nat)
    ensures
        number_value(s, max) matches Some(n) ==> n <= max,
{
}

/// A path is refused only for a reason: one that is not empty, does not begin at the root
/// and has no piece `..` between slashes is accepted.
pub proof fn paths_below_are_accepted(path: Seq<char>)
    requires
        path.len() > 0,
        path[0] != '/',
        forall|from: int, to: int|
            0 <= from <= to <= path.len() && (from == 0 || path[from - 1] == '/') && (to
                == path.len() || path[to] == '/') ==> #[trigger] path.subrange(from, to) != ".."@,
    ensures
        is_safe_path(path),
{
    reveal_strlit("..");
    assert forall|i: int| !#[trigger] parent_at(path, i) by {
        if parent_at(path, i) {
            assert(path.subrange(i, i + 2) =~= ".."@);
        }
    }
}

/// A plain name has no slash and no two dots in a row anywhere, and every other name is
/// not plain.
pub proof fn plain_names_stay_in_their_directory(x: Seq<char>, y: Seq<char>, name: Seq<char>)
    ensures
        !is_plain(x + seq!['/'] + y),
        !is_plain(x + seq!['.', '.'] + y),
        (forall|i: int| 0 <= i < name.len() ==> #[trigger] name[i] != '/' && !(i + 1 < name.len()
            && name[i] == '.' && name[i + 1] == '.')) ==> is_plain(name),
{
    reveal_strlit("..");
    let a = x + seq!['/'] + y;
    assert(a[x.len() as int] == '/');
    let b = x + seq!['.', '.'] + y;
    let n = x.len() as int;
    assert(b.subrange(n, n + 2) =~= ".."@);
    assert(crate::text::occurs_at(b, ".."@, n));
    if occurs_in(name, ".."@) {
        let at = choose|at: int| crate::text::occurs_at(name, ".."@, at);
        assert(name.subrange(at, at + 2)[0] == name[at]);
        assert(name.subrange(at, at + 2)[1] == name[at + 1]);
    }
}

/// The size of an upload is judged before it is decoded, and fairly: of a file of `bytes`
/// bytes in padded base64, four characters for every three bytes or part of them, nothing
/// beyond the cap gets through, and nothing that leaves two bytes to the cap is refused.
pub proof fn upload_caps_are_fair(path: Seq<char>, bytes: nat, max_mb: u32)
    requires
        is_safe_path(path),
    ensures
        ({
            let content = (4 * ((bytes + 2) / 3)) as nat;
            let cap = max_mb * 1_048_576;
            &&& bytes > cap ==> upload_refusal(path, content, max_mb) is Some
            &&& upload_refusal(path, content, max_mb) matches Some((status, _)) ==> status == 413
            &&& bytes + 2 <= cap ==> upload_refusal(path, content, max_mb) is None
        }),
{
}

/// A library is swapped in only when it is not empty, is within the cap and its names are
/// plain; what is then swapped in is the decoded content, for the component asked for.
pub proof fn only_sound_libraries_are_swapped(
    r: Result<SwapRequest, Refusal>,
    uid: u32,
    component: Seq<char>,
    index: u32,
    bank: Seq<char>,
    decoded: Result<Seq<u8>, Seq<char>>,
    max_mb: u32,
)
    requires
        swap_outcome(r, uid, component, index, bank, decoded, max_mb),
    ensures
        r is Ok <==> (decoded is Ok && 0 < decoded->Ok_0.len() <= max_mb * 1_048_576 && is_plain(
            component,
        ) && is_plain(bank)),
        r matches Ok(s) ==> s.full_uid == uid && s.data@ == decoded->Ok_0,
        r matches Err(e) ==> e.status == (if decoded is Ok && decoded->Ok_0.len() > max_mb
            * 1_048_576 {
            413
        } else {
            400int
        }),
{
}

/// An upload goes out as its content decodes, and is refused as a bad request when it does
/// not.
pub proof fn uploads_are_their_decoded_content(
    r: Result<UploadRequest, Refusal>,
    path: Seq<char>,
    decoded: Result<Seq<u8>, Seq<char>>,
)
    requires
        upload_outcome(r, path, decoded),
    ensures
        r is Ok <==> decoded is Ok,
        r matches Ok(u) ==> Ok::<Seq<u8>, Seq<char>>(u.data@) == decoded,
        r matches Err(e) ==> e.status == 400,
{
}

} // verus!
