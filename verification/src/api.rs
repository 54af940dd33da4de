//! What the web service answers: error statuses and messages, the login
//! gate, and the embedded user interface's paths and content types.

use crate::auth::{hash_password, new_hash_prefix, password_length_ok, password_matches, verify, AuthError};
use crate::inventory::InventoryError;
use crate::model::{Credentials, Snapshot, SCHEMA_VERSION};
use crate::session::LoginThrottle;
use crate::session::{recent, MAX_LOGIN_ATTEMPTS};
use crate::text::{
    byte_len, decimal_text, ends_with, is_blank, is_blank_text, push_char, push_decimal, str_eq,
    utf8_len,
};
use crate::validation::{is_valid, ValidationError};
use vstd::prelude::*;
use vstd::string::*;

verus! {

/// An error answer: an HTTP status and a message for the user.
#[derive(Clone, Debug)]
pub struct ApiError {
    pub status: u16,
    pub message: String,
}

impl View for ApiError {
    type V = (u16, Seq<char>);

    open spec fn view(&self) -> (u16, Seq<char>) {
        (self.status, self.message@)
    }
}

fn api_error(status: u16, message: &str) -> (r: ApiError)
    ensures
        r@ == (status, message@),
{
    ApiError { status, message: String::from_str(message) }
}

/// 401: the request has no valid session.
pub fn unauthorized() -> (r: ApiError)
    ensures
        r@ == (401u16, "Please sign in."@),
{
    api_error(401, "Please sign in.")
}

/// 403: a state-changing request without the session's CSRF token or from
/// another origin.
pub fn invalid_request_token() -> (r: ApiError)
    ensures
        r@ == (403u16, "Invalid request token. Reload the page."@),
{
    api_error(403, "Invalid request token. Reload the page.")
}

/// 500: the database could not be used; the details go to the log only.
pub fn internal_error() -> (r: ApiError)
    ensures
        r@ == (500u16, "Could not access the database. Check server logs and try again."@),
{
    api_error(500, "Could not access the database. Check server logs and try again.")
}

/// "a.b.c.d/p": a network address and prefix length in CIDR notation.
pub open spec fn cidr_display(network: u32, prefix: u8) -> Seq<char> {
    decimal_text(network as nat / 16777216) + seq!['.'] + decimal_text((network as nat / 65536) % 256)
        + seq!['.'] + decimal_text((network as nat / 256) % 256) + seq!['.'] + decimal_text(
        network as nat % 256,
    ) + seq!['/'] + decimal_text(prefix as nat)
}

/// The message shown for each refused snapshot.
pub open spec fn validation_message(e: ValidationError) -> Seq<char> {
    match e {
        ValidationError::UnsupportedSchema => "Unsupported database schema version"@,
        ValidationError::LimitReached => "Inventory limit reached"@,
        ValidationError::InvalidSubnetId => "Invalid or duplicate subnet ID"@,
        ValidationError::SubnetName => "Subnet name must contain 1–100 bytes"@,
        ValidationError::InvalidCidr => "Enter a valid IPv4 CIDR"@,
        ValidationError::NotNetworkAddress { network, prefix } => "Use the network address in CIDR, e.g. "@
            + cidr_display(network, prefix),
        ValidationError::SubnetOverlap => "Subnets must not overlap"@,
        ValidationError::InvalidGateway => "Invalid gateway address"@,
        ValidationError::GatewayNotUsable => "Gateway must be a usable address in its subnet"@,
        ValidationError::InvalidVlan => "VLAN must be between 1 and 4094"@,
        ValidationError::InvalidDeviceId => "Invalid or duplicate device ID"@,
        ValidationError::DeviceName => "Device name must contain 1–100 bytes"@,
        ValidationError::InvalidDeviceType => "Invalid device type"@,
        ValidationError::InvalidDeviceStatus => "Invalid device status"@,
        ValidationError::FieldTooLong => "A field exceeds its maximum length"@,
        ValidationError::InvalidReminderDate => "Invalid reminder date"@,
        ValidationError::InvalidIp => "Invalid IPv4 address"@,
        ValidationError::DuplicateIp => "This IP address is already assigned"@,
        ValidationError::SubnetNotFound => "Subnet not found"@,
        ValidationError::IpNotUsable => "IP address is not a usable host in the selected subnet"@,
        ValidationError::NetworkLoop => "This connection creates a network loop"@,
        ValidationError::ParentNotFound => "Parent device not found"@,
        ValidationError::InvalidPortId => "Invalid or duplicate port ID"@,
        ValidationError::InvalidProtocol => "Protocol must be TCP or UDP"@,
        ValidationError::InvalidAccess => "Invalid access level"@,
        ValidationError::InvalidPortStatus => "Invalid port status"@,
        ValidationError::HostServiceLength => "Host and service must contain 1–100 bytes"@,
        ValidationError::DuplicateBinding => "This host, port, and protocol are already recorded"@,
    }
}

/// The message shown for a refused change.
pub open spec fn inventory_message(e: InventoryError) -> Seq<char> {
    match e {
        InventoryError::Invalid(v) => validation_message(v),
        InventoryError::SubnetInUse => "Move assigned devices out of this subnet before deleting it"@,
    }
}

/// "a.b.c.d/p" for a network.
pub fn format_cidr(network: u32, prefix: u8) -> (r: String)
    ensures
        r@ == cidr_display(network, prefix),
{
    let mut s = String::new();
    push_decimal(&mut s, network / 16777216);
    push_char(&mut s, '.');
    push_decimal(&mut s, (network / 65536) % 256);
    push_char(&mut s, '.');
    push_decimal(&mut s, (network / 256) % 256);
    push_char(&mut s, '.');
    push_decimal(&mut s, network % 256);
    push_char(&mut s, '/');
    push_decimal(&mut s, prefix as u32);
    assert(s@ =~= cidr_display(network, prefix));
    s
}

impl ValidationError {
    /// The message shown to the user.
    pub fn message(&self) -> (r: String)
        ensures
            r@ == validation_message(*self),
    {
        match self {
            ValidationError::UnsupportedSchema => String::from_str("Unsupported database schema version"),
            ValidationError::LimitReached => String::from_str("Inventory limit reached"),
            ValidationError::InvalidSubnetId => String::from_str("Invalid or duplicate subnet ID"),
            ValidationError::SubnetName => String::from_str("Subnet name must contain 1–100 bytes"),
            ValidationError::InvalidCidr => String::from_str("Enter a valid IPv4 CIDR"),
            ValidationError::NotNetworkAddress { network, prefix } => {
                let mut m = String::from_str("Use the network address in CIDR, e.g. ");
                let c = format_cidr(*network, *prefix);
                m.append(c.as_str());
                m
            },
            ValidationError::SubnetOverlap => String::from_str("Subnets must not overlap"),
            ValidationError::InvalidGateway => String::from_str("Invalid gateway address"),
            ValidationError::GatewayNotUsable => String::from_str("Gateway must be a usable address in its subnet"),
            ValidationError::InvalidVlan => String::from_str("VLAN must be between 1 and 4094"),
            ValidationError::InvalidDeviceId => String::from_str("Invalid or duplicate device ID"),
            ValidationError::DeviceName => String::from_str("Device name must contain 1–100 bytes"),
            ValidationError::InvalidDeviceType => String::from_str("Invalid device type"),
            ValidationError::InvalidDeviceStatus => String::from_str("Invalid device status"),
            ValidationError::FieldTooLong => String::from_str("A field exceeds its maximum length"),
            ValidationError::InvalidReminderDate => String::from_str("Invalid reminder date"),
            ValidationError::InvalidIp => String::from_str("Invalid IPv4 address"),
            ValidationError::DuplicateIp => String::from_str("This IP address is already assigned"),
            ValidationError::SubnetNotFound => String::from_str("Subnet not found"),
            ValidationError::IpNotUsable => String::from_str("IP address is not a usable host in the selected subnet"),
            ValidationError::NetworkLoop => String::from_str("This connection creates a network loop"),
            ValidationError::ParentNotFound => String::from_str("Parent device not found"),
            ValidationError::InvalidPortId => String::from_str("Invalid or duplicate port ID"),
            ValidationError::InvalidProtocol => String::from_str("Protocol must be TCP or UDP"),
            ValidationError::InvalidAccess => String::from_str("Invalid access level"),
            ValidationError::InvalidPortStatus => String::from_str("Invalid port status"),
            ValidationError::HostServiceLength => String::from_str("Host and service must contain 1–100 bytes"),
            ValidationError::DuplicateBinding => String::from_str("This host, port, and protocol are already recorded"),
        }
    }
}

impl InventoryError {
    /// The message shown to the user.
    pub fn message(&self) -> (r: String)
        ensures
            r@ == inventory_message(*self),
    {
        match self {
            InventoryError::Invalid(v) => v.message(),
            InventoryError::SubnetInUse => String::from_str("Move assigned devices out of this subnet before deleting it"),
        }
    }

    /// 400 with the message: the change was refused.
    pub fn to_api_error(&self) -> (r: ApiError)
        ensures
            r@ == (400u16, inventory_message(*self)),
    {
        ApiError { status: 400, message: self.message() }
    }
}

/// Why a login was turned away before the password was checked.
pub open spec fn login_gate_answer(origin_ok: bool, username: Seq<char>, password: Seq<char>, attempts: Seq<u64>, now: u64) -> Option<(u16, Seq<char>)> {
    if !origin_ok {
        Some((403u16, "Cross-origin login is not allowed."@))
    } else if utf8_len(username) > 100 || utf8_len(password) > 256 {
        Some((401u16, "Please sign in."@))
    } else if recent(attempts, now).len() >= MAX_LOGIN_ATTEMPTS {
        Some((429u16, "Too many login attempts. Wait a minute."@))
    } else {
        None
    }
}

/// The checks before a password is verified, in order: the request comes
/// from the same origin, the username (at most 100 bytes) and password (at
/// most 256) are not too long, and the throttle allows another attempt, which
/// it then counts.
pub fn login_gate(origin_ok: bool, username: &str, password: &str, throttle: &mut LoginThrottle, now: u64) -> (r: Result<(), ApiError>)
    ensures
        match login_gate_answer(origin_ok, username@, password@, old(throttle)@, now) {
            Some(e) => r matches Err(x) && x@ == e,
            None => r is Ok,
        },
        (!origin_ok || utf8_len(username@) > 100 || utf8_len(password@) > 256) ==> final(throttle)@ == old(throttle)@,
        (origin_ok && utf8_len(username@) <= 100 && utf8_len(password@) <= 256) ==> final(throttle)@ == (if r is Ok {
            recent(old(throttle)@, now).push(now)
        } else {
            recent(old(throttle)@, now)
        }),
{
    if !origin_ok {
        return Err(api_error(403, "Cross-origin login is not allowed."));
    }
    if byte_len(username) > 100 || byte_len(password) > 256 {
        return Err(unauthorized());
    }
    if !throttle.try_attempt(now) {
        return Err(api_error(429, "Too many login attempts. Wait a minute."));
    }
    Ok(())
}

/// 429: another login is verifying a password.
pub fn login_in_progress() -> (r: ApiError)
    ensures
        r@ == (429u16, "A login is in progress. Try again shortly."@),
{
    api_error(429, "A login is in progress. Try again shortly.")
}

/// 401: the username or the password is wrong.
pub fn invalid_credentials() -> (r: ApiError)
    ensures
        r@ == (401u16, "Invalid username or password."@),
{
    api_error(401, "Invalid username or password.")
}

/// The username signed in with `username` and `password`: the stored one,
/// when the password matches the stored hash and the username is the stored
/// one. The password is checked in either case.
pub fn check_credentials(stored: &Credentials, username: &str, password: &str) -> (r: Option<String>)
    ensures
        r is Some <==> (password_matches(password@, stored.password_hash@) && username@ == stored.username@),
        r matches Some(u) ==> u@ == stored.username@,
{
    let password_ok = verify(password, stored.password_hash.as_str());
    if password_ok && str_eq(username, stored.username.as_str()) {
        Some(stored.username.clone())
    } else {
        None
    }
}

/// `p` without its leading slashes.
pub open spec fn without_leading_slashes(p: Seq<char>) -> Seq<char>
    decreases p.len(),
{
    if p.len() > 0 && p[0] == '/' {
        without_leading_slashes(p.drop_first())
    } else {
        p
    }
}

/// The embedded file a request path names: the path without leading
/// slashes, `index.html` for the root.
pub open spec fn asset_for(path: Seq<char>) -> Seq<char> {
    if without_leading_slashes(path).len() == 0 {
        "index.html"@
    } else {
        without_leading_slashes(path)
    }
}

/// The embedded file a request path names.
pub fn asset_path(path: &str) -> (r: String)
    ensures
        r@ == asset_for(path@),
{
    let cs = crate::text::chars_of(path);
    let n = cs.len();
    let mut i: usize = 0;
    assert(path@.skip(0) =~= path@);
    while i < n && cs[i] == '/'
        invariant
            cs@ == path@,
            n == path@.len(),
            i <= n,
            without_leading_slashes(path@) == without_leading_slashes(path@.skip(i as int)),
        decreases n - i,
    {
        assert(path@.skip(i as int).drop_first() =~= path@.skip(i + 1));
        i = i + 1;
    }
    assert(path@.skip(i as int) =~= path@.subrange(i as int, n as int));
    if i == n {
        String::from_str("index.html")
    } else {
        path.substring_char(i, n).to_owned()
    }
}

/// The content type of an embedded file, by its extension.
pub open spec fn content_type_for(path: Seq<char>) -> Seq<char> {
    if ".html"@.is_suffix_of(path) {
        "text/html; charset=utf-8"@
    } else if ".js"@.is_suffix_of(path) {
        "text/javascript; charset=utf-8"@
    } else if ".css"@.is_suffix_of(path) {
        "text/css; charset=utf-8"@
    } else if ".svg"@.is_suffix_of(path) {
        "image/svg+xml"@
    } else if ".woff2"@.is_suffix_of(path) {
        "font/woff2"@
    } else {
        "application/octet-stream"@
    }
}

/// The content type of an embedded file.
pub fn content_type(path: &str) -> (r: &'static str)
    ensures
        r@ == content_type_for(path@),
{
    if ends_with(path, ".html") {
        "text/html; charset=utf-8"
    } else if ends_with(path, ".js") {
        "text/javascript; charset=utf-8"
    } else if ends_with(path, ".css") {
        "text/css; charset=utf-8"
    } else if ends_with(path, ".svg") {
        "image/svg+xml"
    } else if ends_with(path, ".woff2") {
        "font/woff2"
    } else {
        "application/octet-stream"
    }
}

/// Only GET and HEAD are answered for embedded files.
pub fn asset_method(m: &str) -> (r: bool)
    ensures
        r == (m@ == "GET"@ || m@ == "HEAD"@),
{
    str_eq(m, "GET") || str_eq(m, "HEAD")
}

/// The `Content-Security-Policy` sent with every answer.
pub const CONTENT_SECURITY_POLICY: &'static str = "default-src 'self'; script-src 'self'; style-src 'self' 'unsafe-inline'; img-src 'self' data:; connect-src 'self'; font-src 'self'; object-src 'none'; base-uri 'none'; frame-ancestors 'none'; form-action 'self'";

/// The largest JSON request body accepted, in bytes.
pub const MAX_BODY_BYTES: usize = 32768;

/// The administrator name chosen at `init`: not blank, at most 100 bytes.
pub open spec fn username_ok(u: Seq<char>) -> bool {
    !is_blank_text(u) && utf8_len(u) <= 100
}

/// Whether `u` may name the administrator.
pub fn valid_username(u: &str) -> (r: bool)
    ensures
        r == username_ok(u@),
{
    !is_blank(u) && byte_len(u) <= 100
}

/// Why a password typed at the command line was not accepted.
#[derive(Clone, Copy, Debug, PartialEq, Eq, Structural)]
pub enum NewPasswordError {
    /// The two entries differ.
    Mismatch,
    /// Hashing refused it: the password is not 6 to 256 bytes long.
    Rejected(AuthError),
}

/// A new password typed twice: both entries must agree; then it is hashed.
pub fn confirm_password(first: &str, again: &str) -> (r: Result<String, NewPasswordError>)
    ensures
        first@ != again@ ==> r == Err::<String, NewPasswordError>(NewPasswordError::Mismatch),
        first@ == again@ ==> (r is Ok <==> password_length_ok(first@)),
        first@ == again@ ==> match r {
            Ok(h) => password_matches(first@, h@) && password_length_ok(first@) && new_hash_prefix().is_prefix_of(h@),
            Err(NewPasswordError::Rejected(e)) => e == AuthError::PasswordLength && !password_length_ok(first@),
            Err(NewPasswordError::Mismatch) => false,
        },
{
    if !str_eq(first, again) {
        return Err(NewPasswordError::Mismatch);
    }
    match hash_password(first) {
        Ok(h) => Ok(h),
        Err(e) => Err(NewPasswordError::Rejected(e)),
    }
}

/// The snapshot `init` writes: schema version 1, the administrator, and an
/// empty inventory.
pub fn initial_snapshot(username: String, password_hash: String) -> (r: Snapshot)
    ensures
        r@.schema_version == SCHEMA_VERSION,
        r@.credentials.username == username@,
        r@.credentials.password_hash == password_hash@,
        r@.devices.len() == 0,
        r@.subnets.len() == 0,
        r@.ports.len() == 0,
        is_valid(r@),
{
    let r = Snapshot {
        schema_version: SCHEMA_VERSION,
        credentials: Credentials { username, password_hash },
        devices: Vec::new(),
        subnets: Vec::new(),
        ports: Vec::new(),
    };
    assert(r@.devices.len() == 0);
    r
}

/// What `restore` does with the destination database.
#[derive(Clone, Copy, Debug, PartialEq, Eq, Structural)]
pub enum RestorePlan {
    /// Write a new database.
    Create,
    /// Replace the contents of the existing one.
    Replace,
    /// Refuse: the destination exists and `--force` was not given.
    Refuse,
}

/// An existing destination is replaced only with `--force`.
pub fn restore_plan(destination_exists: bool, force: bool) -> (r: RestorePlan)
    ensures
        r == (if !destination_exists {
            RestorePlan::Create
        } else if force {
            RestorePlan::Replace
        } else {
            RestorePlan::Refuse
        }),
{
    if !destination_exists {
        RestorePlan::Create
    } else if force {
        RestorePlan::Replace
    } else {
        RestorePlan::Refuse
    }
}

} // verus!
