//! User accounts, login sessions and the on-disk user database.
//!
//! There is no entropy source, so passwords are stored as a salted
//! deterministic hash; the salt is derived from the account id and name.

use vstd::prelude::*;
use vstd::utf8::valid_utf8;
use vstd::string::StringSliceAdditionalSpecFns;
use crate::driver::storage::{self, BLOCK_SIZE, StorageCache};
use crate::util::{first_match, is_first_match, lemma_first_match_is, lemma_first_match_none, lemma_first_match_exists};
use crate::driver::storage::{StorageError, read_outcome, write_outcome, zero_block, hits_block};

verus! {

pub const MAX_USERS: usize = 64;
pub const USERNAME_MAX: usize = 32;
pub const PASSWORD_MIN: usize = 6;
pub const MAX_LOGIN_FAILURES: u8 = 5;

/// Block of the virtual disk that holds the user database.
pub const USER_DB_BLOCK: u64 = 2;
/// Format version of the user database.
pub const USER_DB_VERSION: u8 = 1;
/// Bytes per stored account.
pub const USER_RECORD_SIZE: usize = 63;
/// Bytes before the first stored account.
pub const USER_DB_HEADER_SIZE: usize = 17;

#[derive(Debug, Clone, Copy, PartialEq, Eq, Structural)]
pub enum UserRole {
    Admin,
    Standard,
}

#[derive(Debug, Clone, Copy, PartialEq, Eq, Structural)]
pub enum UserStatus {
    Active,
    Disabled,
    Locked,
}

#[derive(Debug, Clone, Copy, PartialEq, Eq, Structural)]
pub enum UserError {
    InvalidUsername,
    InvalidPassword,
    UserExists,
    UserNotFound,
    UserTableFull,
    PermissionDenied,
    StorageUnavailable,
    CorruptDatabase,
}

#[derive(Debug, Clone, Copy, PartialEq, Eq, Structural)]
pub enum LoginError {
    InvalidCredentials,
    UserDisabled,
    UserLocked,
}

/// A user account.
#[derive(Clone, Copy)]
pub struct User {
    pub id: u32,
    pub username: [u8; USERNAME_MAX],
    pub username_len: usize,
    password_hash: u64,
    salt: u64,
    pub role: UserRole,
    pub status: UserStatus,
    pub failed_logins: u8,
}

/// The fields of a user account, with the name as a byte sequence.
pub struct UserModel {
    pub id: u32,
    pub username: Seq<u8>,
    pub username_len: usize,
    pub password_hash: u64,
    pub salt: u64,
    pub role: UserRole,
    pub status: UserStatus,
    pub failed_logins: u8,
}

impl View for User {
    type V = UserModel;

    closed spec fn view(&self) -> UserModel {
        UserModel {
            id: self.id,
            username: self.username@,
            username_len: self.username_len,
            password_hash: self.password_hash,
            salt: self.salt,
            role: self.role,
            status: self.status,
            failed_logins: self.failed_logins,
        }
    }
}

/// A logged-in session.
#[derive(Clone, Copy)]
pub struct Session {
    pub user_id: u32,
    pub role: UserRole,
    pub started_at_ticks: u64,
}

// ---------------------------------------------------------------------------
// Names and passwords
// ---------------------------------------------------------------------------

/// The bytes of a user's name.
pub open spec fn name_of(u: UserModel) -> Seq<u8> {
    u.username.take(u.username_len as int)
}

/// A byte that may appear in a user name: ASCII letters, digits, `_` and `-`.
pub open spec fn is_name_byte(b: u8) -> bool {
    (0x30 <= b <= 0x39) || (0x41 <= b <= 0x5a) || (0x61 <= b <= 0x7a) || b == 0x5f || b == 0x2d
}

/// A valid user name: 3 to `USERNAME_MAX` name bytes.
pub open spec fn valid_username(name: Seq<u8>) -> bool {
    &&& 3 <= name.len() <= USERNAME_MAX
    &&& forall|i: int| 0 <= i < name.len() ==> is_name_byte(#[trigger] name[i])
}

/// A valid password: at least `PASSWORD_MIN` bytes.
pub open spec fn valid_password(pw: Seq<u8>) -> bool {
    pw.len() >= PASSWORD_MIN
}

/// Bytes of the name of the built-in administrator, `admin`.
pub open spec fn admin_name() -> Seq<u8> {
    seq![0x61u8, 0x64, 0x6d, 0x69, 0x6e]
}

/// Bytes of the built-in administrator's password, `admin123`.
pub open spec fn admin_password() -> Seq<u8> {
    seq![0x61u8, 0x64, 0x6d, 0x69, 0x6e, 0x31, 0x32, 0x33]
}

/// `name` followed by zero bytes up to `USERNAME_MAX`.
pub open spec fn padded_name(name: Seq<u8>) -> Seq<u8> {
    name + Seq::new((USERNAME_MAX - name.len()) as nat, |i: int| 0u8)
}

// ---------------------------------------------------------------------------
// Salt and password hash
// ---------------------------------------------------------------------------

pub open spec fn rotl64(x: u64, n: u64) -> u64 {
    (x << n) | (x >> ((64 - n) as u64))
}

pub open spec fn rotr64(x: u64, n: u64) -> u64 {
    (x >> n) | (x << ((64 - n) as u64))
}

pub open spec fn salt_step(acc: u64, b: u8) -> u64 {
    (rotl64(acc, 5) ^ (b as u64)).wrapping_mul(0x9E37_79B1_85EB_CA87)
}

pub open spec fn salt_fold(acc: u64, bytes: Seq<u8>) -> u64
    decreases bytes.len(),
{
    if bytes.len() == 0 {
        acc
    } else {
        salt_step(salt_fold(acc, bytes.drop_last()), bytes.last())
    }
}

/// The salt of account `id` named `name`.
pub open spec fn spec_make_salt(id: u32, name: Seq<u8>) -> u64 {
    salt_fold(0xA5A5_5A5A_D3C1_B2E0u64 ^ (id as u64), name)
}

pub open spec fn hash_step(h: u64, b: u8) -> u64 {
    let m = (h ^ (b as u64)).wrapping_mul(0x0000_0100_0000_01B3);
    m ^ rotr64(m, 29)
}

pub open spec fn hash_fold(acc: u64, bytes: Seq<u8>) -> u64
    decreases bytes.len(),
{
    if bytes.len() == 0 {
        acc
    } else {
        hash_step(hash_fold(acc, bytes.drop_last()), bytes.last())
    }
}

/// The stored hash of password `pw` under `salt`.
pub open spec fn spec_hash_password(pw: Seq<u8>, salt: u64) -> u64 {
    hash_fold(0xCBF2_9CE4_8422_2325u64 ^ salt, pw) ^ rotl64(salt, 17)
}

/// The odd multiplier of a hash step.
pub open spec fn hash_prime() -> int {
    0x0000_0100_0000_01B3
}

/// Byte differences `b1 ^ b2` for which two passwords that differ only in
/// their last byte can hash alike under some salt. For every other
/// difference (every even one among them, and for instance `'1' ^ '2'`)
/// the last byte always changes the hash.
pub open spec fn last_byte_may_collide(d: u8) -> bool {
    d == 1 || d == 5 || d == 65 || d == 69 || d == 97 || d == 101 || d == 113 || d == 117 || d == 121
        || d == 129 || d == 133
}

/// Multiplying by the odd hash multiplier modulo 2^64 loses nothing.
proof fn lemma_mul_prime_injective(x1: u64, x2: u64)
    requires
        (x1 as int * hash_prime()) % 0x1_0000_0000_0000_0000 == (x2 as int * hash_prime()) % 0x1_0000_0000_0000_0000,
    ensures
        x1 == x2,
{
    let m: int = 0x1_0000_0000_0000_0000;
    let t1 = x1 as int * hash_prime();
    let t2 = x2 as int * hash_prime();
    vstd::arithmetic::div_mod::lemma_fundamental_div_mod(t1, m);
    vstd::arithmetic::div_mod::lemma_fundamental_div_mod(t2, m);
    let e = t1 / m - t2 / m;
    let d = x1 as int - x2 as int;
    assert(d * 0x0000_0100_0000_01B3 == e * 0x1_0000_0000_0000_0000) by {
        assert(t1 - t2 == m * (t1 / m) - m * (t2 / m));
    }
    // 0x100000001B3 * 0xce965057aff6957b == 1 + 887285111055 * 2^64
    assert(d == (e * 0xce965057aff6957b - d * 887285111055) * 0x1_0000_0000_0000_0000) by (nonlinear_arith)
        requires
            d * 0x0000_0100_0000_01B3 == e * 0x1_0000_0000_0000_0000,
    ;
    let w = e * 0xce965057aff6957b - d * 887285111055;
    assert(-0x1_0000_0000_0000_0000 < d < 0x1_0000_0000_0000_0000);
    assert(w == 0) by (nonlinear_arith)
        requires
            d == w * 0x1_0000_0000_0000_0000,
            -0x1_0000_0000_0000_0000 < d < 0x1_0000_0000_0000_0000,
    ;
}

/// Two product residues that add up to `2^64 - 1` come from factors whose
/// sum is 133 modulo 512.
proof fn lemma_mul_prime_complement(x1: u64, x2: u64)
    requires
        (x1 as int * hash_prime()) % 0x1_0000_0000_0000_0000 + (x2 as int * hash_prime()) % 0x1_0000_0000_0000_0000
            == 0xffff_ffff_ffff_ffff,
    ensures
        (x1 as int + x2 as int) % 512 == 133,
{
    let m: int = 0x1_0000_0000_0000_0000;
    let t1 = x1 as int * hash_prime();
    let t2 = x2 as int * hash_prime();
    vstd::arithmetic::div_mod::lemma_fundamental_div_mod(t1, m);
    vstd::arithmetic::div_mod::lemma_fundamental_div_mod(t2, m);
    let e = t1 / m + t2 / m + 1;
    let sum = x1 as int + x2 as int;
    assert(sum * 0x0000_0100_0000_01B3 == e * 0x1_0000_0000_0000_0000 - 1) by {
        assert(t1 + t2 == m * (t1 / m) + m * (t2 / m) + 0xffff_ffff_ffff_ffff);
    }
    // 0x100000001B3 * 0xce965057aff6957b == 1 + 887285111055 * 2^64
    let w = e * 0xce965057aff6957b - sum * 887285111055;
    assert(sum == w * 0x1_0000_0000_0000_0000 - 0xce965057aff6957b) by (nonlinear_arith)
        requires
            sum * 0x0000_0100_0000_01B3 == e * 0x1_0000_0000_0000_0000 - 1,
            w == e * 0xce965057aff6957b - sum * 887285111055,
    ;
    let v = w * 0x80_0000_0000_0000 - 0x674b282bd7fb4b;
    assert(sum == 512 * v + 133) by (nonlinear_arith)
        requires
            sum == w * 0x1_0000_0000_0000_0000 - 0xce965057aff6957b,
            v == w * 0x80_0000_0000_0000 - 0x674b282bd7fb4b,
    ;
    vstd::arithmetic::div_mod::lemma_mod_multiples_vanish(v, 133, 512);
}

/// One hash step gives different states for two last bytes unless their
/// difference is one of `last_byte_may_collide`.
proof fn lemma_step_distinct(h: u64, b1: u8, b2: u8)
    requires
        b1 != b2,
        !last_byte_may_collide(b1 ^ b2),
    ensures
        hash_step(h, b1) != hash_step(h, b2),
{
    let x1 = h ^ (b1 as u64);
    let x2 = h ^ (b2 as u64);
    let m1 = x1.wrapping_mul(0x0000_0100_0000_01B3);
    let m2 = x2.wrapping_mul(0x0000_0100_0000_01B3);
    assert(m1 as int == (x1 as int * hash_prime()) % 0x1_0000_0000_0000_0000);
    assert(m2 as int == (x2 as int * hash_prime()) % 0x1_0000_0000_0000_0000);
    if hash_step(h, b1) == hash_step(h, b2) {
        assert(m1 ^ rotr64(m1, 29) == m2 ^ rotr64(m2, 29));
        assert(m1 == m2 || m1 ^ m2 == 0xffff_ffff_ffff_ffffu64) by (bit_vector)
            requires
                m1 ^ rotr64(m1, 29) == m2 ^ rotr64(m2, 29),
        ;
        let c1 = b1 as u64;
        let c2 = b2 as u64;
        if m1 == m2 {
            lemma_mul_prime_injective(x1, x2);
            assert(c1 == c2) by (bit_vector)
                requires
                    h ^ c1 == h ^ c2,
            ;
        } else {
            assert(m1 as int + m2 as int == 0xffff_ffff_ffff_ffff) by (bit_vector)
                requires
                    m1 ^ m2 == 0xffff_ffff_ffff_ffffu64,
            ;
            lemma_mul_prime_complement(x1, x2);
            let d = b1 ^ b2;
            assert(d == (c1 ^ c2) as u8) by (bit_vector)
                requires
                    c1 == b1 as u64,
                    c2 == b2 as u64,
                    d == b1 ^ b2,
            ;
            assert(last_byte_may_collide((c1 ^ c2) as u8)) by (bit_vector)
                requires
                    c1 < 256,
                    c2 < 256,
                    ((h ^ c1) as int + (h ^ c2) as int) % 512 == 133,
            ;
        }
    }
}

/// The hash reads the password one byte at a time: the hash of the empty
/// password is the salted start value, and appending byte `b` xors `b` into
/// the unsalted state, multiplies it by the odd constant `0x100000001B3`
/// modulo 2^64 and folds the product with itself rotated right by 29.
pub proof fn law_hash_bytewise(pw: Seq<u8>, b: u8, salt: u64)
    ensures
        spec_hash_password(Seq::empty(), salt) == 0xCBF2_9CE4_8422_2325u64 ^ salt ^ rotl64(salt, 17),
        ({
            let h = spec_hash_password(pw, salt) ^ rotl64(salt, 17);
            let m = (h ^ (b as u64)).wrapping_mul(0x0000_0100_0000_01B3);
            spec_hash_password(pw.push(b), salt) == m ^ rotr64(m, 29) ^ rotl64(salt, 17)
        }),
{
    let k = rotl64(salt, 17);
    let a = hash_fold(0xCBF2_9CE4_8422_2325u64 ^ salt, pw);
    assert(pw.push(b).drop_last() =~= pw);
    assert(a ^ k ^ k == a) by (bit_vector);
}

/// Every byte of the password up to the last counts: two passwords that
/// differ only in their last byte hash differently under every salt, unless
/// the two bytes differ by one of `last_byte_may_collide` (there, some
/// salts make them collide). In particular the 9th byte of a 9-byte
/// password changes the hash.
pub proof fn law_hash_last_byte(pw: Seq<u8>, b1: u8, b2: u8, salt: u64)
    requires
        b1 != b2,
        !last_byte_may_collide(b1 ^ b2),
    ensures
        spec_hash_password(pw.push(b1), salt) != spec_hash_password(pw.push(b2), salt),
{
    let k = rotl64(salt, 17);
    let a = hash_fold(0xCBF2_9CE4_8422_2325u64 ^ salt, pw);
    assert(pw.push(b1).drop_last() =~= pw);
    assert(pw.push(b2).drop_last() =~= pw);
    lemma_step_distinct(a, b1, b2);
    let s1 = hash_step(a, b1);
    let s2 = hash_step(a, b2);
    assert(s1 ^ k != s2 ^ k) by (bit_vector)
        requires
            s1 != s2,
    ;
}

/// Name bytes that salt a user's new password: the stored name when it is
/// valid UTF-8, else `admin`.
pub open spec fn salt_name(u: UserModel) -> Seq<u8> {
    if valid_utf8(name_of(u)) {
        name_of(u)
    } else {
        admin_name()
    }
}

fn validate_username(username: &str) -> (r: Result<(), UserError>)
    ensures
        r is Ok <==> valid_username(username.spec_bytes()),
        r is Err ==> r == Err::<(), UserError>(UserError::InvalidUsername),
{
    let bytes = username.as_bytes();
    let len = bytes.len();
    if len < 3 || len > USERNAME_MAX {
        return Err(UserError::InvalidUsername);
    }
    let mut i: usize = 0;
    while i < len
        invariant
            len == bytes@.len(),
            bytes@ == username.spec_bytes(),
            i <= len,
            forall|j: int| 0 <= j < i ==> is_name_byte(#[trigger] bytes@[j]),
        decreases len - i,
    {
        let byte = bytes[i];
        let valid = (byte >= 0x30 && byte <= 0x39) || (byte >= 0x41 && byte <= 0x5a) || (byte >= 0x61
            && byte <= 0x7a) || byte == 0x5f || byte == 0x2d;
        if !valid {
            return Err(UserError::InvalidUsername);
        }
        i += 1;
    }
    Ok(())
}

fn validate_password(password: &str) -> (r: Result<(), UserError>)
    ensures
        r is Ok <==> valid_password(password.spec_bytes()),
        r is Err ==> r == Err::<(), UserError>(UserError::InvalidPassword),
{
    if password.as_bytes().len() < PASSWORD_MIN {
        return Err(UserError::InvalidPassword);
    }
    Ok(())
}

fn copy_username(username: &str) -> (r: [u8; USERNAME_MAX])
    requires
        username.spec_bytes().len() <= USERNAME_MAX,
    ensures
        r@ == padded_name(username.spec_bytes()),
{
    let mut buffer = [0u8; USERNAME_MAX];
    let bytes = username.as_bytes();
    let mut i: usize = 0;
    while i < bytes.len()
        invariant
            bytes@ == username.spec_bytes(),
            bytes@.len() <= USERNAME_MAX,
            i <= bytes@.len(),
            forall|j: int| 0 <= j < i ==> buffer@[j] == bytes@[j],
            forall|j: int| i <= j < USERNAME_MAX ==> buffer@[j] == 0,
        decreases bytes@.len() - i,
    {
        buffer[i] = bytes[i];
        i += 1;
    }
    assert(buffer@ =~= padded_name(username.spec_bytes()));
    buffer
}

fn rotl(x: u64, n: u64) -> (r: u64)
    requires
        0 < n < 64,
    ensures
        r == rotl64(x, n),
{
    (x << n) | (x >> (64 - n))
}

fn rotr(x: u64, n: u64) -> (r: u64)
    requires
        0 < n < 64,
    ensures
        r == rotr64(x, n),
{
    (x >> n) | (x << (64 - n))
}

fn make_salt(user_id: u32, username: &str) -> (r: u64)
    ensures
        r == spec_make_salt(user_id, username.spec_bytes()),
{
    let mut salt: u64 = 0xA5A5_5A5A_D3C1_B2E0u64 ^ user_id as u64;
    let bytes = username.as_bytes();
    let mut i: usize = 0;
    while i < bytes.len()
        invariant
            bytes@ == username.spec_bytes(),
            i <= bytes@.len(),
            salt == salt_fold(0xA5A5_5A5A_D3C1_B2E0u64 ^ (user_id as u64), bytes@.take(i as int)),
        decreases bytes@.len() - i,
    {
        proof {
            assert(bytes@.take(i + 1).drop_last() =~= bytes@.take(i as int));
        }
        salt = rotl(salt, 5) ^ bytes[i] as u64;
        salt = salt.wrapping_mul(0x9E37_79B1_85EB_CA87);
        i += 1;
    }
    assert(bytes@.take(i as int) =~= bytes@);
    salt
}

fn hash_password(password: &str, salt: u64) -> (r: u64)
    ensures
        r == spec_hash_password(password.spec_bytes(), salt),
{
    let mut hash: u64 = 0xCBF2_9CE4_8422_2325u64 ^ salt;
    let bytes = password.as_bytes();
    let mut i: usize = 0;
    while i < bytes.len()
        invariant
            bytes@ == password.spec_bytes(),
            i <= bytes@.len(),
            hash == hash_fold(0xCBF2_9CE4_8422_2325u64 ^ salt, bytes@.take(i as int)),
        decreases bytes@.len() - i,
    {
        proof {
            assert(bytes@.take(i + 1).drop_last() =~= bytes@.take(i as int));
        }
        hash ^= bytes[i] as u64;
        hash = hash.wrapping_mul(0x0000_0100_0000_01B3);
        hash ^= rotr(hash, 29);
        i += 1;
    }
    assert(bytes@.take(i as int) =~= bytes@);
    hash ^ rotl(salt, 17)
}

/// `bytes` as text, when they are valid UTF-8.
#[verifier::external_body]
fn str_from_utf8(bytes: &[u8]) -> (r: Option<&str>)
    ensures
        r is Some <==> valid_utf8(bytes@),
        r is Some ==> r->0.spec_bytes() == bytes@,
{
    core::str::from_utf8(bytes).ok()
}

fn admin_name_str() -> (r: &'static str)
    ensures
        r.spec_bytes() == admin_name(),
{
    let s = "admin";
    proof {
        reveal_strlit("admin");
        vstd::string::is_ascii_spec_bytes(s);
        assert(s.spec_bytes() =~= admin_name());
    }
    s
}

fn admin_password_str() -> (r: &'static str)
    ensures
        r.spec_bytes() == admin_password(),
{
    let s = "admin123";
    proof {
        reveal_strlit("admin123");
        vstd::string::is_ascii_spec_bytes(s);
        assert(s.spec_bytes() =~= admin_password());
    }
    s
}

impl User {
    /// Whether `username` is this user's name.
    pub fn username_matches(&self, username: &str) -> (r: bool)
        requires
            self@.username_len <= USERNAME_MAX,
        ensures
            r == (username.spec_bytes() == name_of(self@)),
    {
        let bytes = username.as_bytes();
        if bytes.len() != self.username_len {
            proof {
                assert(name_of(self@).len() == self.username_len);
            }
            return false;
        }
        let mut i: usize = 0;
        while i < self.username_len
            invariant
                bytes@ == username.spec_bytes(),
                bytes@.len() == self.username_len,
                self.username_len <= USERNAME_MAX,
                i <= self.username_len,
                forall|j: int| 0 <= j < i ==> bytes@[j] == self.username@[j],
            decreases self.username_len - i,
        {
            if bytes[i] != self.username[i] {
                proof {
                    assert(name_of(self@)[i as int] == self.username@[i as int]);
                }
                return false;
            }
            i += 1;
        }
        assert(bytes@ =~= name_of(self@));
        true
    }

    /// The bytes of this user's name.
    pub fn username_bytes(&self) -> (r: &[u8])
        requires
            self@.username_len <= USERNAME_MAX,
        ensures
            r@ == name_of(self@),
    {
        let all: &[u8] = self.username.as_slice();
        vstd::slice::slice_subrange(all, 0, self.username_len)
    }
}

fn username_as_str(user: &User) -> (r: &str)
    requires
        user@.username_len <= USERNAME_MAX,
    ensures
        r.spec_bytes() == salt_name(user@),
{
    match str_from_utf8(user.username_bytes()) {
        Some(s) => s,
        None => admin_name_str(),
    }
}

// ---------------------------------------------------------------------------
// The account table
// ---------------------------------------------------------------------------

/// The account table and the current session.
pub struct UserManager {
    users: [Option<User>; MAX_USERS],
    user_count: usize,
    next_id: u32,
    current_session: Option<Session>,
}

/// The state of an account table.
pub struct UserManagerModel {
    pub users: Seq<Option<UserModel>>,
    pub user_count: usize,
    pub next_id: u32,
    pub current_session: Option<Session>,
}

pub open spec fn opt_user(o: Option<User>) -> Option<UserModel> {
    match o {
        Some(u) => Some(u@),
        None => None,
    }
}

impl View for UserManager {
    type V = UserManagerModel;

    closed spec fn view(&self) -> UserManagerModel {
        UserManagerModel {
            users: self.users@.map_values(|o: Option<User>| opt_user(o)),
            user_count: self.user_count,
            next_id: self.next_id,
            current_session: self.current_session,
        }
    }
}

/// Number of occupied slots.
pub open spec fn count_users(s: Seq<Option<UserModel>>) -> nat
    decreases s.len(),
{
    if s.len() == 0 {
        0
    } else {
        count_users(s.drop_last()) + if s.last() is Some {
            1nat
        } else {
            0nat
        }
    }
}

/// Slot holds the account named `name`.
pub open spec fn slot_named(name: Seq<u8>) -> spec_fn(Option<UserModel>) -> bool {
    |s: Option<UserModel>| s is Some && name_of(s->0) == name
}

/// Slot holds the account with id `id`.
pub open spec fn slot_with_id(id: u32) -> spec_fn(Option<UserModel>) -> bool {
    |s: Option<UserModel>| s is Some && s->0.id == id
}

/// Slot is free.
pub open spec fn slot_free() -> spec_fn(Option<UserModel>) -> bool {
    |s: Option<UserModel>| s is None
}

impl UserManagerModel {
    /// The table has `MAX_USERS` slots, `user_count` of them occupied, and
    /// every stored name has 1 to `USERNAME_MAX` bytes.
    pub open spec fn wf(self) -> bool {
        &&& self.users.len() == MAX_USERS
        &&& count_users(self.users) == self.user_count
        &&& forall|i: int|
            0 <= i < self.users.len() && (#[trigger] self.users[i]) is Some ==> 1 <= self.users[i]->0.username_len
                <= USERNAME_MAX && self.users[i]->0.username.len() == USERNAME_MAX
    }

    /// The account with id `id`, if any: the first slot holding that id.
    pub open spec fn by_id(self, id: u32) -> Option<UserModel> {
        match first_match(self.users, slot_with_id(id)) {
            Some(i) => self.users[i],
            None => None,
        }
    }

    /// The session belongs to an active administrator.
    pub open spec fn is_admin_session(self) -> bool {
        match self.current_session {
            Some(s) => match self.by_id(s.user_id) {
                Some(u) => u.role == UserRole::Admin && u.status == UserStatus::Active,
                None => false,
            },
            None => false,
        }
    }

    /// A request to create `name` with password `pw` passes every check.
    pub open spec fn would_create(self, name: Seq<u8>, pw: Seq<u8>) -> bool {
        &&& valid_username(name)
        &&& valid_password(pw)
        &&& first_match(self.users, slot_named(name)) is None
        &&& first_match(self.users, slot_free()) is Some
    }

    /// The same table with slot `i` set to `v`.
    pub open spec fn with_slot(self, i: int, v: Option<UserModel>) -> UserManagerModel {
        UserManagerModel { users: self.users.update(i, v), ..self }
    }
}

/// The table holding only the built-in administrator.
pub open spec fn default_table() -> UserManagerModel {
    UserManagerModel {
        users: Seq::new(MAX_USERS as nat, |i: int| None::<UserModel>).update(
            0,
            Some(new_user(1, admin_name(), admin_password(), UserRole::Admin)),
        ),
        user_count: 1,
        next_id: 2,
        current_session: None,
    }
}

/// The account that `create_user` makes.
pub open spec fn new_user(id: u32, name: Seq<u8>, pw: Seq<u8>, role: UserRole) -> UserModel {
    let salt = spec_make_salt(id, name);
    UserModel {
        id,
        username: padded_name(name),
        username_len: name.len() as usize,
        password_hash: spec_hash_password(pw, salt),
        salt,
        role,
        status: UserStatus::Active,
        failed_logins: 0,
    }
}

/// What `create_user` does.
pub open spec fn create_outcome(
    old: UserManagerModel,
    new: UserManagerModel,
    name: Seq<u8>,
    pw: Seq<u8>,
    role: UserRole,
    r: Result<u32, UserError>,
) -> bool {
    if !valid_username(name) {
        r == Err::<u32, UserError>(UserError::InvalidUsername) && new == old
    } else if !valid_password(pw) {
        r == Err::<u32, UserError>(UserError::InvalidPassword) && new == old
    } else if first_match(old.users, slot_named(name)) is Some {
        r == Err::<u32, UserError>(UserError::UserExists) && new == old
    } else {
        match first_match(old.users, slot_free()) {
            None => r == Err::<u32, UserError>(UserError::UserTableFull) && new == old,
            Some(i) => {
                &&& r == Ok::<u32, UserError>(old.next_id)
                &&& new == UserManagerModel {
                    users: old.users.update(i, Some(new_user(old.next_id, name, pw, role))),
                    user_count: (old.user_count + 1) as usize,
                    next_id: (old.next_id + 1) as u32,
                    current_session: old.current_session,
                }
            },
        }
    }
}

/// Failed-login count after one more failure.
pub open spec fn bump_failures(f: u8) -> u8 {
    if f == u8::MAX {
        u8::MAX
    } else {
        (f + 1) as u8
    }
}

/// What `login` does.
pub open spec fn login_outcome(
    old: UserManagerModel,
    new: UserManagerModel,
    name: Seq<u8>,
    pw: Seq<u8>,
    r: Result<Session, LoginError>,
) -> bool {
    match first_match(old.users, slot_named(name)) {
        None => r == Err::<Session, LoginError>(LoginError::InvalidCredentials) && new == old,
        Some(i) => {
            let u = old.users[i]->0;
            match u.status {
                UserStatus::Disabled => r == Err::<Session, LoginError>(LoginError::UserDisabled) && new == old,
                UserStatus::Locked => r == Err::<Session, LoginError>(LoginError::UserLocked) && new == old,
                UserStatus::Active => if u.password_hash != spec_hash_password(pw, u.salt) {
                    let f = bump_failures(u.failed_logins);
                    let u2 = UserModel {
                        failed_logins: f,
                        status: if f >= MAX_LOGIN_FAILURES {
                            UserStatus::Locked
                        } else {
                            UserStatus::Active
                        },
                        ..u
                    };
                    r == Err::<Session, LoginError>(LoginError::InvalidCredentials) && new == old.with_slot(
                        i,
                        Some(u2),
                    )
                } else {
                    let session = Session { user_id: u.id, role: u.role, started_at_ticks: 0 };
                    &&& r == Ok::<Session, LoginError>(session)
                    &&& new == UserManagerModel {
                        current_session: Some(session),
                        ..old.with_slot(i, Some(UserModel { failed_logins: 0, ..u }))
                    }
                },
            }
        },
    }
}

/// What an administrative change of account `id` does, when `change` is
/// what it does to the account.
pub open spec fn admin_update_outcome(
    old: UserManagerModel,
    new: UserManagerModel,
    id: u32,
    change: spec_fn(UserModel) -> UserModel,
    r: Result<(), UserError>,
) -> bool {
    if !old.is_admin_session() {
        r == Err::<(), UserError>(UserError::PermissionDenied) && new == old
    } else {
        match first_match(old.users, slot_with_id(id)) {
            None => r == Err::<(), UserError>(UserError::UserNotFound) && new == old,
            Some(i) => r == Ok::<(), UserError>(()) && new == old.with_slot(i, Some(change(old.users[i]->0))),
        }
    }
}

/// What `delete_user` does.
pub open spec fn delete_outcome(
    old: UserManagerModel,
    new: UserManagerModel,
    id: u32,
    r: Result<(), UserError>,
) -> bool {
    if !old.is_admin_session() {
        r == Err::<(), UserError>(UserError::PermissionDenied) && new == old
    } else {
        match first_match(old.users, slot_with_id(id)) {
            None => r == Err::<(), UserError>(UserError::UserNotFound) && new == old,
            Some(i) => if old.current_session->0.user_id == id {
                r == Err::<(), UserError>(UserError::PermissionDenied) && new == old
            } else {
                r == Ok::<(), UserError>(()) && new == UserManagerModel {
                    user_count: (old.user_count - 1) as usize,
                    ..old.with_slot(i, None)
                }
            },
        }
    }
}

/// What `change_password` does.
pub open spec fn change_password_outcome(
    old: UserManagerModel,
    new: UserManagerModel,
    id: u32,
    old_pw: Seq<u8>,
    new_pw: Seq<u8>,
    r: Result<(), UserError>,
) -> bool {
    if !valid_password(new_pw) {
        r == Err::<(), UserError>(UserError::InvalidPassword) && new == old
    } else {
        match first_match(old.users, slot_with_id(id)) {
            None => r == Err::<(), UserError>(UserError::UserNotFound) && new == old,
            Some(i) => {
                let u = old.users[i]->0;
                if u.password_hash != spec_hash_password(old_pw, u.salt) {
                    r == Err::<(), UserError>(UserError::PermissionDenied) && new == old
                } else {
                    r == Ok::<(), UserError>(()) && new == old.with_slot(i, Some(with_password(u, new_pw)))
                }
            },
        }
    }
}

/// What `reset_password_as_admin` does.
pub open spec fn reset_password_outcome(
    old: UserManagerModel,
    new: UserManagerModel,
    id: u32,
    pw: Seq<u8>,
    r: Result<(), UserError>,
) -> bool {
    if !old.is_admin_session() {
        r == Err::<(), UserError>(UserError::PermissionDenied) && new == old
    } else if !valid_password(pw) {
        r == Err::<(), UserError>(UserError::InvalidPassword) && new == old
    } else {
        admin_update_outcome(old, new, id, with_reset_password(pw), r)
    }
}

pub open spec fn with_role(role: UserRole) -> spec_fn(UserModel) -> UserModel {
    |u: UserModel| UserModel { role, ..u }
}

pub open spec fn with_status(status: UserStatus) -> spec_fn(UserModel) -> UserModel {
    |u: UserModel|
        UserModel {
            status,
            failed_logins: if status == UserStatus::Active {
                0
            } else {
                u.failed_logins
            },
            ..u
        }
}

/// The account with its password replaced by `pw`, salted afresh.
pub open spec fn with_password(u: UserModel, pw: Seq<u8>) -> UserModel {
    let salt = spec_make_salt(u.id, salt_name(u));
    UserModel { salt, password_hash: spec_hash_password(pw, salt), ..u }
}

pub open spec fn with_reset_password(pw: Seq<u8>) -> spec_fn(UserModel) -> UserModel {
    |u: UserModel|
        UserModel {
            failed_logins: 0,
            status: if u.status == UserStatus::Locked {
                UserStatus::Active
            } else {
                u.status
            },
            ..with_password(u, pw)
        }
}

proof fn lemma_count_bounds(s: Seq<Option<UserModel>>)
    ensures
        count_users(s) <= s.len(),
        (exists|i: int| 0 <= i < s.len() && (#[trigger] s[i]) is Some) ==> count_users(s) >= 1,
    decreases s.len(),
{
    if s.len() > 0 {
        lemma_count_bounds(s.drop_last());
        if exists|i: int| 0 <= i < s.len() && (#[trigger] s[i]) is Some {
            let i = choose|i: int| 0 <= i < s.len() && (#[trigger] s[i]) is Some;
            if i < s.len() - 1 {
                assert(s.drop_last()[i] is Some);
            }
        }
    }
}

proof fn lemma_count_update(s: Seq<Option<UserModel>>, i: int, v: Option<UserModel>)
    requires
        0 <= i < s.len(),
    ensures
        count_users(s.update(i, v)) + (if s[i] is Some {
            1nat
        } else {
            0nat
        }) == count_users(s) + (if v is Some {
            1nat
        } else {
            0nat
        }),
    decreases s.len(),
{
    if i == s.len() - 1 {
        assert(s.update(i, v).drop_last() =~= s.drop_last());
    } else {
        lemma_count_update(s.drop_last(), i, v);
        assert(s.update(i, v).drop_last() =~= s.drop_last().update(i, v));
    }
}

impl UserManager {
    /// An empty table whose first account will get id 1.
    pub fn empty() -> (r: Self)
        ensures
            r@.wf(),
            r@.users == Seq::new(MAX_USERS as nat, |i: int| None::<UserModel>),
            r@.user_count == 0,
            r@.next_id == 1,
            r@.current_session is None,
    {
        let r = UserManager { users: [None; MAX_USERS], user_count: 0, next_id: 1, current_session: None };
        proof {
            assert(r@.users =~= Seq::new(MAX_USERS as nat, |i: int| None::<UserModel>));
            lemma_count_zero(r@.users);
        }
        r
    }

    /// Add an account named `username` with password `password` and `role`.
    pub fn create_user(&mut self, username: &str, password: &str, role: UserRole) -> (r: Result<u32, UserError>)
        requires
            old(self)@.wf(),
            old(self)@.would_create(username.spec_bytes(), password.spec_bytes()) ==> old(self)@.next_id < u32::MAX,
        ensures
            final(self)@.wf(),
            create_outcome(old(self)@, final(self)@, username.spec_bytes(), password.spec_bytes(), role, r),
    {
        if let Err(e) = validate_username(username) {
            return Err(e);
        }
        if let Err(e) = validate_password(password) {
            return Err(e);
        }
        if self.find_index(username).is_some() {
            return Err(UserError::UserExists);
        }
        let slot = match self.find_free() {
            Some(i) => i,
            None => {
                return Err(UserError::UserTableFull);
            },
        };
        let id = self.next_id;
        self.next_id += 1;
        let salt = make_salt(id, username);
        let user = User {
            id,
            username: copy_username(username),
            username_len: username.as_bytes().len(),
            password_hash: hash_password(password, salt),
            salt,
            role,
            status: UserStatus::Active,
            failed_logins: 0,
        };
        let ghost before = self@.users;
        proof {
            assert(before[slot as int] is None);
            lemma_count_update(before, slot as int, Some(user@));
            lemma_count_bounds(before);
        }
        self.users[slot] = Some(user);
        self.user_count += 1;
        proof {
            assert(user@ == new_user(id, username.spec_bytes(), password.spec_bytes(), role));
            assert(self@.users =~= before.update(slot as int, Some(user@)));
        }
        Ok(id)
    }

    /// Log in as `username` with `password`. A wrong password counts as a
    /// failure; at `MAX_LOGIN_FAILURES` failures the account is locked.
    pub fn login(&mut self, username: &str, password: &str) -> (r: Result<Session, LoginError>)
        requires
            old(self)@.wf(),
        ensures
            final(self)@.wf(),
            login_outcome(old(self)@, final(self)@, username.spec_bytes(), password.spec_bytes(), r),
    {
        let index = match self.find_index(username) {
            Some(i) => i,
            None => {
                return Err(LoginError::InvalidCredentials);
            },
        };
        assert(self@.users[index as int] == opt_user(self.users@[index as int]));
        let mut user = match self.users[index] {
            Some(u) => u,
            None => {
                return Err(LoginError::InvalidCredentials);
            },
        };
        match user.status {
            UserStatus::Disabled => {
                return Err(LoginError::UserDisabled);
            },
            UserStatus::Locked => {
                return Err(LoginError::UserLocked);
            },
            UserStatus::Active => {},
        }
        let ghost before = self@.users;
        if user.password_hash != hash_password(password, user.salt) {
            user.failed_logins = user.failed_logins.saturating_add(1);
            if user.failed_logins >= MAX_LOGIN_FAILURES {
                user.status = UserStatus::Locked;
            }
            proof {
                lemma_count_update(before, index as int, Some(user@));
            }
            self.users[index] = Some(user);
            assert(self@.users =~= before.update(index as int, Some(user@)));
            return Err(LoginError::InvalidCredentials);
        }
        user.failed_logins = 0;
        proof {
            lemma_count_update(before, index as int, Some(user@));
        }
        self.users[index] = Some(user);
        assert(self@.users =~= before.update(index as int, Some(user@)));
        let session = Session { user_id: user.id, role: user.role, started_at_ticks: 0 };
        self.current_session = Some(session);
        Ok(session)
    }

    /// End the current session.
    pub fn logout(&mut self)
        requires
            old(self)@.wf(),
        ensures
            final(self)@ == (UserManagerModel { current_session: None, ..old(self)@ }),
            final(self)@.wf(),
    {
        self.current_session = None;
    }

    /// The current session.
    pub fn current_session(&self) -> (r: Option<Session>)
        ensures
            r == self@.current_session,
    {
        self.current_session
    }

    /// The account of the current session.
    pub fn current_user(&self) -> (r: Option<User>)
        requires
            self@.wf(),
        ensures
            opt_user(r) == match self@.current_session {
                Some(s) => self@.by_id(s.user_id),
                None => None,
            },
    {
        let session = match self.current_session {
            Some(s) => s,
            None => {
                return None;
            },
        };
        self.find_by_id(session.user_id)
    }

    /// Number of accounts.
    pub fn user_count(&self) -> (r: usize)
        ensures
            r == self@.user_count,
    {
        self.user_count
    }

    /// All account slots.
    pub fn list_users(&self) -> (r: [Option<User>; MAX_USERS])
        ensures
            r@.map_values(|o: Option<User>| opt_user(o)) == self@.users,
    {
        self.users
    }

    /// Change the role of account `user_id` (administrators only).
    pub fn set_role(&mut self, user_id: u32, role: UserRole) -> (r: Result<(), UserError>)
        requires
            old(self)@.wf(),
        ensures
            final(self)@.wf(),
            admin_update_outcome(old(self)@, final(self)@, user_id, with_role(role), r),
    {
        if let Err(e) = self.require_admin() {
            return Err(e);
        }
        let index = match self.find_index_by_id(user_id) {
            Some(i) => i,
            None => {
                return Err(UserError::UserNotFound);
            },
        };
        assert(self@.users[index as int] == opt_user(self.users@[index as int]));
        if let Some(mut user) = self.users[index] {
            user.role = role;
            let ghost before = self@.users;
            proof {
                lemma_count_update(before, index as int, Some(user@));
            }
            self.users[index] = Some(user);
            assert(self@.users =~= before.update(index as int, Some(user@)));
            Ok(())
        } else {
            Err(UserError::UserNotFound)
        }
    }

    /// Change the status of account `user_id` (administrators only). Making an
    /// account active clears its failed logins.
    pub fn set_status(&mut self, user_id: u32, status: UserStatus) -> (r: Result<(), UserError>)
        requires
            old(self)@.wf(),
        ensures
            final(self)@.wf(),
            admin_update_outcome(old(self)@, final(self)@, user_id, with_status(status), r),
    {
        if let Err(e) = self.require_admin() {
            return Err(e);
        }
        let index = match self.find_index_by_id(user_id) {
            Some(i) => i,
            None => {
                return Err(UserError::UserNotFound);
            },
        };
        assert(self@.users[index as int] == opt_user(self.users@[index as int]));
        if let Some(mut user) = self.users[index] {
            user.status = status;
            if status == UserStatus::Active {
                user.failed_logins = 0;
            }
            let ghost before = self@.users;
            proof {
                lemma_count_update(before, index as int, Some(user@));
            }
            self.users[index] = Some(user);
            assert(self@.users =~= before.update(index as int, Some(user@)));
            Ok(())
        } else {
            Err(UserError::UserNotFound)
        }
    }

    /// Delete account `user_id` (administrators only); the account of the
    /// current session cannot be deleted.
    pub fn delete_user(&mut self, user_id: u32) -> (r: Result<(), UserError>)
        requires
            old(self)@.wf(),
        ensures
            final(self)@.wf(),
            delete_outcome(old(self)@, final(self)@, user_id, r),
    {
        if let Err(e) = self.require_admin() {
            return Err(e);
        }
        let index = match self.find_index_by_id(user_id) {
            Some(i) => i,
            None => {
                return Err(UserError::UserNotFound);
            },
        };
        let same = match self.current_session {
            Some(session) => session.user_id == user_id,
            None => false,
        };
        if same {
            return Err(UserError::PermissionDenied);
        }
        let ghost before = self@.users;
        proof {
            assert(before[index as int] is Some);
            lemma_count_update(before, index as int, None);
            lemma_count_bounds(before);
        }
        self.users[index] = None;
        self.user_count -= 1;
        assert(self@.users =~= before.update(index as int, None));
        Ok(())
    }

    /// Change the password of account `user_id` given its current password.
    pub fn change_password(&mut self, user_id: u32, old_password: &str, new_password: &str) -> (r: Result<
        (),
        UserError,
    >)
        requires
            old(self)@.wf(),
        ensures
            final(self)@.wf(),
            change_password_outcome(old(self)@, final(self)@, user_id, old_password.spec_bytes(), new_password.spec_bytes(), r),
    {
        if let Err(e) = validate_password(new_password) {
            return Err(e);
        }
        let index = match self.find_index_by_id(user_id) {
            Some(i) => i,
            None => {
                return Err(UserError::UserNotFound);
            },
        };
        assert(self@.users[index as int] == opt_user(self.users@[index as int]));
        let mut user = match self.users[index] {
            Some(u) => u,
            None => {
                return Err(UserError::UserNotFound);
            },
        };
        if user.password_hash != hash_password(old_password, user.salt) {
            return Err(UserError::PermissionDenied);
        }
        user.salt = make_salt(user.id, username_as_str(&user));
        user.password_hash = hash_password(new_password, user.salt);
        let ghost before = self@.users;
        proof {
            lemma_count_update(before, index as int, Some(user@));
        }
        self.users[index] = Some(user);
        assert(self@.users =~= before.update(index as int, Some(user@)));
        Ok(())
    }

    /// Set a new password for account `user_id` (administrators only),
    /// clearing failed logins and unlocking a locked account.
    pub fn reset_password_as_admin(&mut self, user_id: u32, new_password: &str) -> (r: Result<(), UserError>)
        requires
            old(self)@.wf(),
        ensures
            final(self)@.wf(),
            reset_password_outcome(old(self)@, final(self)@, user_id, new_password.spec_bytes(), r),
    {
        if let Err(e) = self.require_admin() {
            return Err(e);
        }
        if let Err(e) = validate_password(new_password) {
            return Err(e);
        }
        let index = match self.find_index_by_id(user_id) {
            Some(i) => i,
            None => {
                return Err(UserError::UserNotFound);
            },
        };
        assert(self@.users[index as int] == opt_user(self.users@[index as int]));
        let mut user = match self.users[index] {
            Some(u) => u,
            None => {
                return Err(UserError::UserNotFound);
            },
        };
        user.salt = make_salt(user.id, username_as_str(&user));
        user.password_hash = hash_password(new_password, user.salt);
        user.failed_logins = 0;
        if user.status == UserStatus::Locked {
            user.status = UserStatus::Active;
        }
        let ghost before = self@.users;
        proof {
            lemma_count_update(before, index as int, Some(user@));
        }
        self.users[index] = Some(user);
        assert(self@.users =~= before.update(index as int, Some(user@)));
        Ok(())
    }

    /// Empty the table and create the built-in administrator `admin` with
    /// password `admin123`.
    pub fn reset_with_default_admin(&mut self)
        ensures
            final(self)@.wf(),
            final(self)@ == default_table(),
    {
        self.users = [None; MAX_USERS];
        self.user_count = 0;
        self.next_id = 1;
        self.current_session = None;
        let name = admin_name_str();
        let password = admin_password_str();
        proof {
            let users = self@.users;
            assert(users =~= Seq::new(MAX_USERS as nat, |i: int| None::<UserModel>));
            lemma_count_zero(users);
            assert(valid_username(admin_name()));
            lemma_first_match_none(users, slot_named(admin_name()));
            assert(is_first_match(users, slot_free(), 0));
            lemma_first_match_is(users, slot_free(), 0);
        }
        let _ = self.create_user(name, password, UserRole::Admin);
        proof {
            assert(self@.users =~= default_table().users);
        }
    }

    fn find_index(&self, username: &str) -> (r: Option<usize>)
        requires
            self@.wf(),
        ensures
            match r {
                Some(i) => first_match(self@.users, slot_named(username.spec_bytes())) == Some(i as int),
                None => first_match(self@.users, slot_named(username.spec_bytes())) is None,
            },
    {
        let ghost p = slot_named(username.spec_bytes());
        let mut i: usize = 0;
        while i < MAX_USERS
            invariant
                self@.wf(),
                p == slot_named(username.spec_bytes()),
                i <= MAX_USERS,
                forall|j: int| 0 <= j < i ==> !p(#[trigger] self@.users[j]),
            decreases MAX_USERS - i,
        {
            assert(self@.users[i as int] == opt_user(self.users@[i as int]));
            if let Some(user) = &self.users[i] {
                if user.username_matches(username) {
                    proof {
                        assert(is_first_match(self@.users, p, i as int));
                        lemma_first_match_is(self@.users, p, i as int);
                    }
                    return Some(i);
                }
            }
            i += 1;
        }
        proof {
            lemma_first_match_none(self@.users, p);
        }
        None
    }

    fn find_index_by_id(&self, user_id: u32) -> (r: Option<usize>)
        requires
            self@.wf(),
        ensures
            match r {
                Some(i) => first_match(self@.users, slot_with_id(user_id)) == Some(i as int),
                None => first_match(self@.users, slot_with_id(user_id)) is None,
            },
    {
        let ghost p = slot_with_id(user_id);
        let mut i: usize = 0;
        while i < MAX_USERS
            invariant
                self@.wf(),
                p == slot_with_id(user_id),
                i <= MAX_USERS,
                forall|j: int| 0 <= j < i ==> !p(#[trigger] self@.users[j]),
            decreases MAX_USERS - i,
        {
            assert(self@.users[i as int] == opt_user(self.users@[i as int]));
            if let Some(user) = &self.users[i] {
                if user.id == user_id {
                    proof {
                        assert(is_first_match(self@.users, p, i as int));
                        lemma_first_match_is(self@.users, p, i as int);
                    }
                    return Some(i);
                }
            }
            i += 1;
        }
        proof {
            lemma_first_match_none(self@.users, p);
        }
        None
    }

    fn find_free(&self) -> (r: Option<usize>)
        requires
            self@.wf(),
        ensures
            match r {
                Some(i) => first_match(self@.users, slot_free()) == Some(i as int),
                None => first_match(self@.users, slot_free()) is None,
            },
    {
        let ghost p = slot_free();
        let mut i: usize = 0;
        while i < MAX_USERS
            invariant
                self@.wf(),
                p == slot_free(),
                i <= MAX_USERS,
                forall|j: int| 0 <= j < i ==> !p(#[trigger] self@.users[j]),
            decreases MAX_USERS - i,
        {
            assert(self@.users[i as int] == opt_user(self.users@[i as int]));
            if self.users[i].is_none() {
                proof {
                    assert(is_first_match(self@.users, p, i as int));
                    lemma_first_match_is(self@.users, p, i as int);
                }
                return Some(i);
            }
            i += 1;
        }
        proof {
            lemma_first_match_none(self@.users, p);
        }
        None
    }

    fn find_by_id(&self, user_id: u32) -> (r: Option<User>)
        requires
            self@.wf(),
        ensures
            opt_user(r) == self@.by_id(user_id),
    {
        match self.find_index_by_id(user_id) {
            Some(i) => {
                assert(self@.users[i as int] == opt_user(self.users@[i as int]));
                self.users[i]
            },
            None => None,
        }
    }

    fn require_admin(&self) -> (r: Result<(), UserError>)
        requires
            self@.wf(),
        ensures
            r is Ok <==> self@.is_admin_session(),
            r is Err ==> r == Err::<(), UserError>(UserError::PermissionDenied),
    {
        let session = match self.current_session {
            Some(s) => s,
            None => {
                return Err(UserError::PermissionDenied);
            },
        };
        match self.find_by_id(session.user_id) {
            Some(user) => {
                if user.role == UserRole::Admin && user.status == UserStatus::Active {
                    Ok(())
                } else {
                    Err(UserError::PermissionDenied)
                }
            },
            None => Err(UserError::PermissionDenied),
        }
    }
}

proof fn lemma_count_zero(s: Seq<Option<UserModel>>)
    requires
        forall|i: int| 0 <= i < s.len() ==> (#[trigger] s[i]) is None,
    ensures
        count_users(s) == 0,
    decreases s.len(),
{
    if s.len() > 0 {
        lemma_count_zero(s.drop_last());
    }
}

// ---------------------------------------------------------------------------
// The on-disk user database
// ---------------------------------------------------------------------------
//
// Layout of the database block: magic `VZXUSER1`, version byte, account
// count (u32 LE), next id (u32 LE), then one 63-byte record per account in
// slot order: id (u32 LE), name length, 32 name bytes, password hash (u64
// LE), salt (u64 LE), role byte, status byte, failed-login count, 7 zeros.

pub open spec fn user_db_magic() -> Seq<u8> {
    seq![0x56u8, 0x5A, 0x58, 0x55, 0x53, 0x45, 0x52, 0x31]
}

pub open spec fn le_u32_bytes(v: u32) -> Seq<u8> {
    seq![v as u8, (v >> 8) as u8, (v >> 16) as u8, (v >> 24) as u8]
}

pub open spec fn le_u64_bytes(v: u64) -> Seq<u8> {
    seq![
        v as u8,
        (v >> 8) as u8,
        (v >> 16) as u8,
        (v >> 24) as u8,
        (v >> 32) as u8,
        (v >> 40) as u8,
        (v >> 48) as u8,
        (v >> 56) as u8,
    ]
}

pub open spec fn u32_from_le(b: Seq<u8>) -> u32 {
    (b[0] as u32) | ((b[1] as u32) << 8) | ((b[2] as u32) << 16) | ((b[3] as u32) << 24)
}

pub open spec fn u64_from_le(b: Seq<u8>) -> u64 {
    (b[0] as u64) | ((b[1] as u64) << 8) | ((b[2] as u64) << 16) | ((b[3] as u64) << 24) | ((b[4] as u64)
        << 32) | ((b[5] as u64) << 40) | ((b[6] as u64) << 48) | ((b[7] as u64) << 56)
}

pub open spec fn role_byte(r: UserRole) -> u8 {
    match r {
        UserRole::Admin => 1,
        UserRole::Standard => 2,
    }
}

pub open spec fn role_of_byte(b: u8) -> Option<UserRole> {
    if b == 1 {
        Some(UserRole::Admin)
    } else if b == 2 {
        Some(UserRole::Standard)
    } else {
        None
    }
}

pub open spec fn status_byte(s: UserStatus) -> u8 {
    match s {
        UserStatus::Active => 1,
        UserStatus::Disabled => 2,
        UserStatus::Locked => 3,
    }
}

pub open spec fn status_of_byte(b: u8) -> Option<UserStatus> {
    if b == 1 {
        Some(UserStatus::Active)
    } else if b == 2 {
        Some(UserStatus::Disabled)
    } else if b == 3 {
        Some(UserStatus::Locked)
    } else {
        None
    }
}

/// The 63-byte record of an account.
pub open spec fn encode_user(u: UserModel) -> Seq<u8> {
    le_u32_bytes(u.id) + seq![u.username_len as u8] + u.username + le_u64_bytes(u.password_hash) + le_u64_bytes(
        u.salt,
    ) + seq![role_byte(u.role), status_byte(u.status), u.failed_logins] + Seq::new(7, |i: int| 0u8)
}

/// The accounts of the occupied slots, in slot order.
pub open spec fn present(s: Seq<Option<UserModel>>) -> Seq<UserModel>
    decreases s.len(),
{
    if s.len() == 0 {
        Seq::empty()
    } else if s.last() is Some {
        present(s.drop_last()).push(s.last()->0)
    } else {
        present(s.drop_last())
    }
}

pub open spec fn encode_records(us: Seq<UserModel>) -> Seq<u8>
    decreases us.len(),
{
    if us.len() == 0 {
        Seq::empty()
    } else {
        encode_records(us.drop_last()) + encode_user(us.last())
    }
}

/// The bytes that `serialize_users` writes at the start of the block.
pub open spec fn encode_db(m: UserManagerModel) -> Seq<u8> {
    user_db_magic() + seq![USER_DB_VERSION] + le_u32_bytes(m.user_count as u32) + le_u32_bytes(m.next_id)
        + encode_records(present(m.users))
}

/// `b` with the bytes from `off` on replaced by `x`.
pub open spec fn splice(b: Seq<u8>, off: int, x: Seq<u8>) -> Seq<u8> {
    b.take(off) + x + b.skip(off + x.len())
}

proof fn lemma_splice_extend(b: Seq<u8>, off: int, x: Seq<u8>, y: Seq<u8>)
    requires
        0 <= off,
        off + x.len() + y.len() <= b.len(),
    ensures
        splice(splice(b, off, x), off + x.len(), y) == splice(b, off, x + y),
{
    assert(splice(splice(b, off, x), off + x.len(), y) =~= splice(b, off, x + y));
}

proof fn lemma_update_splice(b: Seq<u8>, i: int, v: u8)
    requires
        0 <= i < b.len(),
    ensures
        b.update(i, v) == splice(b, i, seq![v]),
{
    assert(b.update(i, v) =~= splice(b, i, seq![v]));
}

fn write_u32(buffer: &mut [u8; BLOCK_SIZE], offset: usize, value: u32)
    requires
        offset + 4 <= BLOCK_SIZE,
    ensures
        final(buffer)@ == splice(old(buffer)@, offset as int, le_u32_bytes(value)),
{
    buffer[offset] = value as u8;
    buffer[offset + 1] = (value >> 8) as u8;
    buffer[offset + 2] = (value >> 16) as u8;
    buffer[offset + 3] = (value >> 24) as u8;
    assert(buffer@ =~= splice(old(buffer)@, offset as int, le_u32_bytes(value)));
}

fn write_u64(buffer: &mut [u8; BLOCK_SIZE], offset: usize, value: u64)
    requires
        offset + 8 <= BLOCK_SIZE,
    ensures
        final(buffer)@ == splice(old(buffer)@, offset as int, le_u64_bytes(value)),
{
    buffer[offset] = value as u8;
    buffer[offset + 1] = (value >> 8) as u8;
    buffer[offset + 2] = (value >> 16) as u8;
    buffer[offset + 3] = (value >> 24) as u8;
    buffer[offset + 4] = (value >> 32) as u8;
    buffer[offset + 5] = (value >> 40) as u8;
    buffer[offset + 6] = (value >> 48) as u8;
    buffer[offset + 7] = (value >> 56) as u8;
    assert(buffer@ =~= splice(old(buffer)@, offset as int, le_u64_bytes(value)));
}

fn read_u32(buffer: &[u8; BLOCK_SIZE], offset: usize) -> (r: u32)
    requires
        offset + 4 <= BLOCK_SIZE,
    ensures
        r == u32_from_le(buffer@.subrange(offset as int, offset + 4)),
{
    (buffer[offset] as u32) | ((buffer[offset + 1] as u32) << 8) | ((buffer[offset + 2] as u32) << 16) | ((
    buffer[offset + 3] as u32) << 24)
}

fn read_u64(buffer: &[u8; BLOCK_SIZE], offset: usize) -> (r: u64)
    requires
        offset + 8 <= BLOCK_SIZE,
    ensures
        r == u64_from_le(buffer@.subrange(offset as int, offset + 8)),
{
    (buffer[offset] as u64) | ((buffer[offset + 1] as u64) << 8) | ((buffer[offset + 2] as u64) << 16) | ((
    buffer[offset + 3] as u64) << 24) | ((buffer[offset + 4] as u64) << 32) | ((buffer[offset + 5] as u64)
        << 40) | ((buffer[offset + 6] as u64) << 48) | ((buffer[offset + 7] as u64) << 56)
}

fn role_to_u8(role: UserRole) -> (r: u8)
    ensures
        r == role_byte(role),
{
    match role {
        UserRole::Admin => 1,
        UserRole::Standard => 2,
    }
}

fn u8_to_role(value: u8) -> (r: Option<UserRole>)
    ensures
        r == role_of_byte(value),
{
    match value {
        1 => Some(UserRole::Admin),
        2 => Some(UserRole::Standard),
        _ => None,
    }
}

fn status_to_u8(status: UserStatus) -> (r: u8)
    ensures
        r == status_byte(status),
{
    match status {
        UserStatus::Active => 1,
        UserStatus::Disabled => 2,
        UserStatus::Locked => 3,
    }
}

fn u8_to_status(value: u8) -> (r: Option<UserStatus>)
    ensures
        r == status_of_byte(value),
{
    match value {
        1 => Some(UserStatus::Active),
        2 => Some(UserStatus::Disabled),
        3 => Some(UserStatus::Locked),
        _ => None,
    }
}

/// Write the record of `user` at `offset`.
fn write_record(buffer: &mut [u8; BLOCK_SIZE], offset: usize, user: &User)
    requires
        offset + USER_RECORD_SIZE <= BLOCK_SIZE,
    ensures
        final(buffer)@ == splice(old(buffer)@, offset as int, encode_user(user@)),
{
    let ghost orig = buffer@;
    let ghost e = encode_user(user@);
    let ghost off = offset as int;
    assert(user@.username.len() == USERNAME_MAX);
    assert(e.len() == USER_RECORD_SIZE);
    write_u32(buffer, offset, user.id);
    assert(le_u32_bytes(user@.id) =~= e.take(4));
    let len_byte = user.username_len as u8;
    proof {
        lemma_update_splice(buffer@, off + 4, len_byte);
        lemma_splice_extend(orig, off, e.take(4), seq![len_byte]);
        assert(e.take(4) + seq![len_byte] =~= e.take(5));
    }
    buffer[offset + 4] = len_byte;
    let mut i: usize = 0;
    while i < USERNAME_MAX
        invariant
            offset + USER_RECORD_SIZE <= BLOCK_SIZE,
            off == offset,
            orig.len() == BLOCK_SIZE,
            e == encode_user(user@),
            e.len() == USER_RECORD_SIZE,
            i <= USERNAME_MAX,
            buffer@ == splice(orig, off, e.take(5 + i)),
        decreases USERNAME_MAX - i,
    {
        let b = user.username[i];
        proof {
            assert(e[5 + i] == b);
            lemma_update_splice(buffer@, off + 5 + i, b);
            lemma_splice_extend(orig, off, e.take(5 + i), seq![b]);
            assert(e.take(5 + i) + seq![b] =~= e.take(5 + i + 1));
        }
        buffer[offset + 5 + i] = b;
        i += 1;
    }
    write_u64(buffer, offset + 37, user.password_hash);
    proof {
        lemma_splice_extend(orig, off, e.take(37), le_u64_bytes(user@.password_hash));
        assert(e.take(37) + le_u64_bytes(user@.password_hash) =~= e.take(45));
    }
    write_u64(buffer, offset + 45, user.salt);
    proof {
        lemma_splice_extend(orig, off, e.take(45), le_u64_bytes(user@.salt));
        assert(e.take(45) + le_u64_bytes(user@.salt) =~= e.take(53));
    }
    let tail0 = role_to_u8(user.role);
    let tail1 = status_to_u8(user.status);
    let tail2 = user.failed_logins;
    proof {
        lemma_update_splice(buffer@, off + 53, tail0);
        lemma_splice_extend(orig, off, e.take(53), seq![tail0]);
        assert(e.take(53) + seq![tail0] =~= e.take(54));
    }
    buffer[offset + 53] = tail0;
    proof {
        lemma_update_splice(buffer@, off + 54, tail1);
        lemma_splice_extend(orig, off, e.take(54), seq![tail1]);
        assert(e.take(54) + seq![tail1] =~= e.take(55));
    }
    buffer[offset + 54] = tail1;
    proof {
        lemma_update_splice(buffer@, off + 55, tail2);
        lemma_splice_extend(orig, off, e.take(55), seq![tail2]);
        assert(e.take(55) + seq![tail2] =~= e.take(56));
    }
    buffer[offset + 55] = tail2;
    let mut k: usize = 56;
    while k < USER_RECORD_SIZE
        invariant
            offset + USER_RECORD_SIZE <= BLOCK_SIZE,
            off == offset,
            orig.len() == BLOCK_SIZE,
            e == encode_user(user@),
            e.len() == USER_RECORD_SIZE,
            56 <= k <= USER_RECORD_SIZE,
            buffer@ == splice(orig, off, e.take(k as int)),
        decreases USER_RECORD_SIZE - k,
    {
        proof {
            assert(e[k as int] == 0);
            lemma_update_splice(buffer@, off + k, 0u8);
            lemma_splice_extend(orig, off, e.take(k as int), seq![0u8]);
            assert(e.take(k as int) + seq![0u8] =~= e.take(k + 1));
        }
        buffer[offset + k] = 0;
        k += 1;
    }
    assert(e.take(USER_RECORD_SIZE as int) =~= e);
}

proof fn lemma_encode_records_len(us: Seq<UserModel>)
    requires
        forall|i: int| 0 <= i < us.len() ==> (#[trigger] us[i]).username.len() == USERNAME_MAX,
    ensures
        encode_records(us).len() == USER_RECORD_SIZE * us.len(),
    decreases us.len(),
{
    if us.len() > 0 {
        lemma_encode_records_len(us.drop_last());
        assert(us.last().username.len() == USERNAME_MAX);
    }
}

proof fn lemma_present_facts(s: Seq<Option<UserModel>>)
    ensures
        present(s).len() == count_users(s),
        forall|k: int|
            0 <= k < present(s).len() ==> exists|i: int| 0 <= i < s.len() && #[trigger] s[i] == Some(#[trigger] present(s)[k]),
    decreases s.len(),
{
    if s.len() > 0 {
        lemma_present_facts(s.drop_last());
        let p = present(s.drop_last());
        assert forall|k: int| 0 <= k < present(s).len() implies exists|i: int|
            0 <= i < s.len() && #[trigger] s[i] == Some(#[trigger] present(s)[k]) by {
            if k < p.len() {
                let i = choose|i: int| 0 <= i < s.drop_last().len() && #[trigger] s.drop_last()[i] == Some(p[k]);
                assert(s[i] == Some(present(s)[k]));
            } else {
                assert(s[s.len() - 1] == Some(present(s)[k]));
            }
        }
    }
}

/// Write the database image of `manager` at the start of `buffer`.
fn serialize_users(manager: &UserManager, buffer: &mut [u8; BLOCK_SIZE]) -> (r: Result<(), UserError>)
    requires
        manager@.wf(),
    ensures
        r is Ok,
        encode_db(manager@).len() <= BLOCK_SIZE,
        final(buffer)@ == splice(old(buffer)@, 0, encode_db(manager@)),
{
    let ghost orig = buffer@;
    let ghost users = manager@.users;
    let ghost header = user_db_magic() + seq![USER_DB_VERSION] + le_u32_bytes(manager.user_count as u32)
        + le_u32_bytes(manager.next_id);
    buffer[0] = 0x56;
    buffer[1] = 0x5A;
    buffer[2] = 0x58;
    buffer[3] = 0x55;
    buffer[4] = 0x53;
    buffer[5] = 0x45;
    buffer[6] = 0x52;
    buffer[7] = 0x31;
    buffer[8] = USER_DB_VERSION;
    proof {
        lemma_count_bounds(manager@.users);
    }
    write_u32(buffer, 9, manager.user_count as u32);
    write_u32(buffer, 13, manager.next_id);
    assert(buffer@ =~= splice(orig, 0, header));
    let mut offset: usize = USER_DB_HEADER_SIZE;
    let mut i: usize = 0;
    proof {
        assert(users.take(0) =~= Seq::<Option<UserModel>>::empty());
        assert(encode_records(present(users.take(0))) =~= Seq::<u8>::empty());
        assert(header + encode_records(present(users.take(0))) =~= header);
    }
    let ghost m = manager@;
    while i < MAX_USERS
        invariant
            manager@.wf(),
            users == manager@.users,
            header.len() == USER_DB_HEADER_SIZE,
            i <= MAX_USERS,
            present(users.take(i as int)).len() <= i,
            forall|k: int|
                0 <= k < present(users.take(i as int)).len() ==> (#[trigger] present(users.take(i as int))[k]).username.len()
                    == USERNAME_MAX,
            offset == USER_DB_HEADER_SIZE + USER_RECORD_SIZE * present(users.take(i as int)).len(),
            orig.len() == BLOCK_SIZE,
            buffer@ == splice(orig, 0, header + encode_records(present(users.take(i as int)))),
        decreases MAX_USERS - i,
    {
        let ghost prev = present(users.take(i as int));
        proof {
            lemma_encode_records_len(prev);
            assert(users.take(i + 1).drop_last() =~= users.take(i as int));
            assert(users.take(i + 1).last() == users[i as int]);
            assert(users[i as int] == opt_user(manager.users@[i as int]));
        }
        if let Some(user) = &manager.users[i] {
            if offset + USER_RECORD_SIZE > BLOCK_SIZE {
                return Err(UserError::CorruptDatabase);
            }
            write_record(buffer, offset, user);
            proof {
                assert(user@.username.len() == USERNAME_MAX);
                assert(present(users.take(i + 1)) == prev.push(user@));
                assert(prev.push(user@).drop_last() =~= prev);
                assert(encode_records(prev.push(user@)) == encode_records(prev) + encode_user(user@));
                lemma_splice_extend(orig, 0, header + encode_records(prev), encode_user(user@));
                assert(header + encode_records(prev) + encode_user(user@) =~= header + encode_records(
                    present(users.take(i + 1)),
                ));
            }
            offset += USER_RECORD_SIZE;
        } else {
            proof {
                assert(present(users.take(i + 1)) == prev);
            }
        }
        i += 1;
    }
    proof {
        assert(users.take(MAX_USERS as int) =~= users);
        lemma_encode_records_len(present(users));
    }
    Ok(())
}

/// The `k`-th stored record of a database block.
pub open spec fn record_at(buf: Seq<u8>, k: int) -> Seq<u8> {
    buf.subrange(USER_DB_HEADER_SIZE + USER_RECORD_SIZE * k, USER_DB_HEADER_SIZE + USER_RECORD_SIZE * k
        + USER_RECORD_SIZE)
}

/// A record that decodes: name length 1 to `USERNAME_MAX`, known role and status.
pub open spec fn record_valid(rec: Seq<u8>) -> bool {
    &&& 1 <= rec[4] <= USERNAME_MAX
    &&& role_of_byte(rec[53]) is Some
    &&& status_of_byte(rec[54]) is Some
}

pub open spec fn bad_record() -> spec_fn(Seq<u8>) -> bool {
    |rec: Seq<u8>| !record_valid(rec)
}

/// The account that a valid record describes.
pub open spec fn decode_user(rec: Seq<u8>) -> UserModel {
    UserModel {
        id: u32_from_le(rec.subrange(0, 4)),
        username: rec.subrange(5, 37),
        username_len: rec[4] as usize,
        password_hash: u64_from_le(rec.subrange(37, 45)),
        salt: u64_from_le(rec.subrange(45, 53)),
        role: role_of_byte(rec[53])->0,
        status: status_of_byte(rec[54])->0,
        failed_logins: rec[55],
    }
}

pub open spec fn stored_count(buf: Seq<u8>) -> u32 {
    u32_from_le(buf.subrange(9, 13))
}

pub open spec fn stored_next_id(buf: Seq<u8>) -> u32 {
    u32_from_le(buf.subrange(13, 17))
}

/// The block starts with the magic and version and counts at most `MAX_USERS` accounts.
pub open spec fn header_ok(buf: Seq<u8>) -> bool {
    &&& buf.take(8) == user_db_magic()
    &&& buf[8] == USER_DB_VERSION
    &&& stored_count(buf) <= MAX_USERS
}

/// The stored records of a block.
pub open spec fn records(buf: Seq<u8>) -> Seq<Seq<u8>> {
    Seq::new(stored_count(buf) as nat, |k: int| record_at(buf, k))
}

/// Number of records loaded: all of them, or those before the first one
/// that does not decode.
pub open spec fn loaded(buf: Seq<u8>) -> nat {
    match first_match(records(buf), bad_record()) {
        Some(k) => k as nat,
        None => stored_count(buf) as nat,
    }
}

/// The first `k` records of `buf` in slots `0..k`, the other slots free.
pub open spec fn decoded_table(buf: Seq<u8>, k: nat) -> Seq<Option<UserModel>> {
    Seq::new(
        MAX_USERS as nat,
        |i: int|
            if i < k {
                Some(decode_user(record_at(buf, i)))
            } else {
                None
            },
    )
}

/// What `deserialize_users` does with block `buf`.
pub open spec fn load_outcome(
    old: UserManagerModel,
    new: UserManagerModel,
    buf: Seq<u8>,
    r: Result<(), UserError>,
) -> bool {
    if !header_ok(buf) {
        r == Err::<(), UserError>(UserError::CorruptDatabase) && new == old
    } else {
        let k = loaded(buf);
        &&& new.users == decoded_table(buf, k)
        &&& new.user_count == k
        &&& new.current_session is None
        &&& if k < stored_count(buf) {
            r == Err::<(), UserError>(UserError::CorruptDatabase) && new.next_id == stored_next_id(buf)
        } else {
            r == Ok::<(), UserError>(()) && new.next_id == if stored_next_id(buf) == 0 {
                1
            } else {
                stored_next_id(buf)
            }
        }
    }
}

proof fn lemma_decoded_count(buf: Seq<u8>, k: nat, n: nat)
    requires
        k <= n <= MAX_USERS,
    ensures
        count_users(decoded_table(buf, k).take(n as int)) == k,
    decreases n,
{
    let t = decoded_table(buf, k);
    if n > 0 {
        assert(t.take(n as int).drop_last() =~= t.take(n - 1));
        if k == n {
            lemma_decoded_count(buf, (k - 1) as nat, (n - 1) as nat);
            assert(decoded_table(buf, (k - 1) as nat).take(n - 1) =~= t.take(n - 1));
        } else {
            lemma_decoded_count(buf, k, (n - 1) as nat);
        }
    }
}

/// Replace the table by the accounts stored in `buffer`.
fn deserialize_users(manager: &mut UserManager, buffer: &[u8; BLOCK_SIZE]) -> (r: Result<(), UserError>)
    requires
        old(manager)@.wf(),
    ensures
        final(manager)@.wf(),
        old(manager)@.wf() && !header_ok(buffer@) ==> final(manager)@ == old(manager)@,
        load_outcome(old(manager)@, final(manager)@, buffer@, r),
{
    let ghost buf = buffer@;
    if buffer[0] != 0x56 || buffer[1] != 0x5A || buffer[2] != 0x58 || buffer[3] != 0x55 || buffer[4] != 0x53
        || buffer[5] != 0x45 || buffer[6] != 0x52 || buffer[7] != 0x31 {
        proof {
            if buf.take(8) == user_db_magic() {
                assert(buf[0] == buf.take(8)[0] && buf[1] == buf.take(8)[1] && buf[2] == buf.take(8)[2] && buf[3]
                    == buf.take(8)[3] && buf[4] == buf.take(8)[4] && buf[5] == buf.take(8)[5] && buf[6]
                    == buf.take(8)[6] && buf[7] == buf.take(8)[7]);
            }
        }
        return Err(UserError::CorruptDatabase);
    }
    assert(buf.take(8) =~= user_db_magic());
    if buffer[8] != USER_DB_VERSION {
        return Err(UserError::CorruptDatabase);
    }
    let stored = read_u32(buffer, 9) as usize;
    if stored > MAX_USERS {
        return Err(UserError::CorruptDatabase);
    }
    assert(header_ok(buf));
    self_reset(manager, read_u32(buffer, 13));
    let ghost next = stored_next_id(buf);
    let ghost recs = records(buf);
    let mut offset: usize = USER_DB_HEADER_SIZE;
    let mut i: usize = 0;
    proof {
        assert(manager@.users =~= decoded_table(buf, 0));
    }
    while i < stored
        invariant
            buf == buffer@,
            buf.len() == BLOCK_SIZE,
            header_ok(buf),
            stored == stored_count(buf),
            recs == records(buf),
            i <= stored <= MAX_USERS,
            offset == USER_DB_HEADER_SIZE + USER_RECORD_SIZE * i,
            manager@.wf(),
            manager@.users == decoded_table(buf, i as nat),
            manager@.user_count == i,
            next == stored_next_id(buf),
            manager@.next_id == next,
            manager@.current_session is None,
            forall|j: int| 0 <= j < i ==> !bad_record()(#[trigger] recs[j]),
        decreases stored - i,
    {
        let ghost rec = record_at(buf, i as int);
        assert(recs[i as int] == rec);
        if offset + USER_RECORD_SIZE > BLOCK_SIZE {
            return Err(UserError::CorruptDatabase);
        }
        let id = read_u32(buffer, offset);
        assert(buf.subrange(offset as int, offset + 4) =~= rec.subrange(0, 4));
        offset += 4;
        let username_len = buffer[offset] as usize;
        assert(rec[4] == buf[offset as int]);
        offset += 1;
        if username_len == 0 || username_len > USERNAME_MAX {
            proof {
                assert(!record_valid(rec));
                assert(bad_record()(recs[i as int]));
                assert(is_first_match(recs, bad_record(), i as int));
                lemma_first_match_is(recs, bad_record(), i as int);
            }
            return Err(UserError::CorruptDatabase);
        }
        let mut username = [0u8; USERNAME_MAX];
        let mut j: usize = 0;
        while j < USERNAME_MAX
            invariant
                buf == buffer@,
                buf.len() == BLOCK_SIZE,
                offset + 58 <= BLOCK_SIZE,
                j <= USERNAME_MAX,
                forall|m: int| 0 <= m < j ==> username@[m] == buf[offset + m],
            decreases USERNAME_MAX - j,
        {
            username[j] = buffer[offset + j];
            j += 1;
        }
        assert(username@ =~= rec.subrange(5, 37));
        offset += USERNAME_MAX;
        let password_hash = read_u64(buffer, offset);
        assert(buf.subrange(offset as int, offset + 8) =~= rec.subrange(37, 45));
        offset += 8;
        let salt = read_u64(buffer, offset);
        assert(buf.subrange(offset as int, offset + 8) =~= rec.subrange(45, 53));
        offset += 8;
        assert(rec[53] == buf[offset as int]);
        let role = match u8_to_role(buffer[offset]) {
            Some(r) => r,
            None => {
                proof {
                    assert(is_first_match(recs, bad_record(), i as int));
                    lemma_first_match_is(recs, bad_record(), i as int);
                }
                return Err(UserError::CorruptDatabase);
            },
        };
        offset += 1;
        assert(rec[54] == buf[offset as int]);
        let status = match u8_to_status(buffer[offset]) {
            Some(s) => s,
            None => {
                proof {
                    assert(!record_valid(rec));
                    assert(bad_record()(recs[i as int]));
                    assert(is_first_match(recs, bad_record(), i as int));
                    lemma_first_match_is(recs, bad_record(), i as int);
                }
                return Err(UserError::CorruptDatabase);
            },
        };
        offset += 1;
        assert(rec[55] == buf[offset as int]);
        let failed_logins = buffer[offset];
        offset += 1;
        offset += 7;
        proof {
            assert(manager@.users[i as int] is None);
            assert forall|m: int| 0 <= m < i implies !slot_free()(#[trigger] manager@.users[m]) by {}
            assert(is_first_match(manager@.users, slot_free(), i as int));
            lemma_first_match_is(manager@.users, slot_free(), i as int);
        }
        let slot = match manager.find_free() {
            Some(k) => k,
            None => {
                return Err(UserError::UserTableFull);
            },
        };
        let user = User { id, username, username_len, password_hash, salt, role, status, failed_logins };
        assert(user@ == decode_user(rec));
        let ghost before = manager@.users;
        manager.users[slot] = Some(user);
        manager.user_count += 1;
        proof {
            assert(slot == i);
            assert(manager@.users =~= before.update(slot as int, Some(user@)));
            assert(manager@.users =~= decoded_table(buf, (i + 1) as nat));
            lemma_decoded_count(buf, (i + 1) as nat, MAX_USERS as nat);
            assert(decoded_table(buf, (i + 1) as nat).take(MAX_USERS as int) =~= decoded_table(buf, (i + 1) as nat));
            assert(!bad_record()(recs[i as int]));
        }
        i += 1;
    }
    proof {
        assert forall|m: int| 0 <= m < recs.len() implies !bad_record()(#[trigger] recs[m]) by {}
        lemma_first_match_none(recs, bad_record());
    }
    if manager.next_id == 0 {
        manager.next_id = 1;
    }
    Ok(())
}

/// Empty the table, keeping `next_id` as the id of the next account.
fn self_reset(manager: &mut UserManager, next_id: u32)
    ensures
        final(manager)@.wf(),
        final(manager)@.users == Seq::new(MAX_USERS as nat, |i: int| None::<UserModel>),
        final(manager)@.user_count == 0,
        final(manager)@.next_id == next_id,
        final(manager)@.current_session is None,
{
    manager.users = [None; MAX_USERS];
    manager.user_count = 0;
    manager.next_id = next_id;
    manager.current_session = None;
    proof {
        assert(manager@.users =~= Seq::new(MAX_USERS as nat, |i: int| None::<UserModel>));
        lemma_count_zero(manager@.users);
    }
}

/// The accounts of the occupied slots moved to the first slots, in slot order.
pub open spec fn compact(s: Seq<Option<UserModel>>) -> Seq<Option<UserModel>> {
    Seq::new(
        MAX_USERS as nat,
        |i: int|
            if i < present(s).len() {
                Some(present(s)[i])
            } else {
                None
            },
    )
}

proof fn lemma_u32_le_round_trip(v: u32)
    ensures
        u32_from_le(le_u32_bytes(v)) == v,
{
    let b = le_u32_bytes(v);
    assert(b[0] == v as u8 && b[1] == (v >> 8) as u8 && b[2] == (v >> 16) as u8 && b[3] == (v >> 24) as u8);
    assert(((v as u8) as u32) | ((((v >> 8) as u8) as u32) << 8) | ((((v >> 16) as u8) as u32) << 16) | ((((v
        >> 24) as u8) as u32) << 24) == v) by (bit_vector);
}

proof fn lemma_u64_le_round_trip(v: u64)
    ensures
        u64_from_le(le_u64_bytes(v)) == v,
{
    let b = le_u64_bytes(v);
    assert(b[0] == v as u8 && b[1] == (v >> 8) as u8 && b[2] == (v >> 16) as u8 && b[3] == (v >> 24) as u8
        && b[4] == (v >> 32) as u8 && b[5] == (v >> 40) as u8 && b[6] == (v >> 48) as u8 && b[7] == (v >> 56) as u8);
    assert(((v as u8) as u64) | ((((v >> 8) as u8) as u64) << 8) | ((((v >> 16) as u8) as u64) << 16) | ((((v
        >> 24) as u8) as u64) << 24) | ((((v >> 32) as u8) as u64) << 32) | ((((v >> 40) as u8) as u64) << 40)
        | ((((v >> 48) as u8) as u64) << 48) | ((((v >> 56) as u8) as u64) << 56) == v) by (bit_vector);
}

/// A record decodes to the account it was written from.
proof fn lemma_user_round_trip(u: UserModel)
    requires
        u.username.len() == USERNAME_MAX,
        1 <= u.username_len <= USERNAME_MAX,
    ensures
        record_valid(encode_user(u)),
        decode_user(encode_user(u)) == u,
{
    let e = encode_user(u);
    assert(e.subrange(0, 4) =~= le_u32_bytes(u.id));
    assert(e.subrange(5, 37) =~= u.username);
    assert(e.subrange(37, 45) =~= le_u64_bytes(u.password_hash));
    assert(e.subrange(45, 53) =~= le_u64_bytes(u.salt));
    lemma_u32_le_round_trip(u.id);
    lemma_u64_le_round_trip(u.password_hash);
    lemma_u64_le_round_trip(u.salt);
    assert(e[4] == u.username_len as u8);
    assert(e[53] == role_byte(u.role));
    assert(e[54] == status_byte(u.status));
    assert(e[55] == u.failed_logins);
    assert(decode_user(e) =~= u);
}

proof fn lemma_encode_records_at(us: Seq<UserModel>, k: int)
    requires
        forall|i: int| 0 <= i < us.len() ==> (#[trigger] us[i]).username.len() == USERNAME_MAX,
        0 <= k < us.len(),
    ensures
        encode_records(us).subrange(USER_RECORD_SIZE * k, USER_RECORD_SIZE * k + USER_RECORD_SIZE)
            == encode_user(us[k]),
    decreases us.len(),
{
    let init = us.drop_last();
    lemma_encode_records_len(init);
    assert(us.last().username.len() == USERNAME_MAX);
    if k < us.len() - 1 {
        lemma_encode_records_at(init, k);
        assert(encode_records(us).subrange(USER_RECORD_SIZE * k, USER_RECORD_SIZE * k + USER_RECORD_SIZE)
            =~= encode_records(init).subrange(USER_RECORD_SIZE * k, USER_RECORD_SIZE * k + USER_RECORD_SIZE));
    } else {
        assert(encode_records(us).subrange(USER_RECORD_SIZE * k, USER_RECORD_SIZE * k + USER_RECORD_SIZE)
            =~= encode_user(us.last()));
    }
}

/// Loading a block that starts with the image `serialize_users` wrote of a
/// table gives back that table's accounts, in slot order in the first slots,
/// with its id counter (1 for a counter of 0) and no session.
pub proof fn law_user_db_round_trip(
    m: UserManagerModel,
    buf: Seq<u8>,
    old: UserManagerModel,
    new: UserManagerModel,
    r: Result<(), UserError>,
)
    requires
        m.wf(),
        buf.len() == BLOCK_SIZE,
        encode_db(m).len() <= BLOCK_SIZE,
        buf.take(encode_db(m).len() as int) == encode_db(m),
        load_outcome(old, new, buf, r),
    ensures
        r is Ok,
        new.users == compact(m.users),
        new.user_count == m.user_count,
        new.next_id == if m.next_id == 0 {
            1
        } else {
            m.next_id
        },
        new.current_session is None,
{
    let e = encode_db(m);
    let ps = present(m.users);
    lemma_present_facts(m.users);
    lemma_count_bounds(m.users);
    assert forall|k: int| 0 <= k < ps.len() implies (#[trigger] ps[k]).username.len() == USERNAME_MAX && 1
        <= ps[k].username_len <= USERNAME_MAX by {
        let i = choose|i: int| 0 <= i < m.users.len() && #[trigger] m.users[i] == Some(ps[k]);
        assert(m.users[i] is Some);
    }
    lemma_encode_records_len(ps);
    let header = user_db_magic() + seq![USER_DB_VERSION] + le_u32_bytes(m.user_count as u32) + le_u32_bytes(
        m.next_id,
    );
    assert(e == header + encode_records(ps));
    assert(buf.take(8) =~= user_db_magic()) by {
        assert(buf.take(8) =~= e.take(8));
    }
    assert(buf[8] == e[8]);
    assert(buf.subrange(9, 13) =~= le_u32_bytes(m.user_count as u32)) by {
        assert(buf.subrange(9, 13) =~= e.subrange(9, 13));
    }
    assert(buf.subrange(13, 17) =~= le_u32_bytes(m.next_id)) by {
        assert(buf.subrange(13, 17) =~= e.subrange(13, 17));
    }
    lemma_u32_le_round_trip(m.user_count as u32);
    lemma_u32_le_round_trip(m.next_id);
    assert(stored_count(buf) == m.user_count);
    assert(header_ok(buf));
    let recs = records(buf);
    assert forall|k: int| 0 <= k < recs.len() implies recs[k] == encode_user(ps[k]) by {
        lemma_encode_records_at(ps, k);
        assert(recs[k] =~= e.subrange(
            USER_DB_HEADER_SIZE + USER_RECORD_SIZE * k,
            USER_DB_HEADER_SIZE + USER_RECORD_SIZE * k + USER_RECORD_SIZE,
        ));
        assert(e.subrange(
            USER_DB_HEADER_SIZE + USER_RECORD_SIZE * k,
            USER_DB_HEADER_SIZE + USER_RECORD_SIZE * k + USER_RECORD_SIZE,
        ) =~= encode_records(ps).subrange(USER_RECORD_SIZE * k, USER_RECORD_SIZE * k + USER_RECORD_SIZE));
    }
    assert forall|k: int| 0 <= k < recs.len() implies !bad_record()(#[trigger] recs[k]) by {
        lemma_user_round_trip(ps[k]);
    }
    lemma_first_match_none(recs, bad_record());
    assert(loaded(buf) == m.user_count);
    assert forall|i: int| 0 <= i < MAX_USERS implies #[trigger] decoded_table(buf, loaded(buf))[i] == compact(
        m.users,
    )[i] by {
        if i < ps.len() {
            lemma_user_round_trip(ps[i]);
            assert(record_at(buf, i) == recs[i]);
        }
    }
    assert(decoded_table(buf, loaded(buf)) =~= compact(m.users));
}

/// The block `save_to_storage` writes: the database image, then zeros.
pub open spec fn user_db_image(m: UserManagerModel) -> Seq<u8> {
    splice(zero_block(), 0, encode_db(m))
}

/// What `save_to_storage` did to the storage stack.
pub open spec fn save_outcome(
    m: UserManagerModel,
    old: StorageCache,
    new: StorageCache,
    r: Result<(), UserError>,
) -> bool {
    exists|w: Result<(), StorageError>|
        {
            &&& #[trigger] write_outcome(old, new, USER_DB_BLOCK, user_db_image(m), w)
            &&& (r is Ok <==> w is Ok)
            &&& (r is Err ==> r == Err::<(), UserError>(UserError::StorageUnavailable))
        }
}

/// What `load_from_storage` did to the table and the storage stack.
pub open spec fn load_db_outcome(
    old_m: UserManagerModel,
    new_m: UserManagerModel,
    old_s: StorageCache,
    new_s: StorageCache,
    r: Result<(), UserError>,
) -> bool {
    exists|w: Result<(), StorageError>, nb: Seq<u8>|
        {
            &&& #[trigger] read_outcome(old_s, new_s, USER_DB_BLOCK, zero_block(), nb, w)
            &&& nb.len() == BLOCK_SIZE
            &&& (w is Ok ==> nb == old_s.disk_block(USER_DB_BLOCK))
            &&& (w is Err ==> r == Err::<(), UserError>(UserError::StorageUnavailable) && new_m == old_m)
            &&& (w is Ok ==> load_outcome(old_m, new_m, nb, r))
        }
}

impl UserManager {
    /// Write the table to the user database block.
    pub fn save_to_storage(&self, storage: &mut StorageCache) -> (r: Result<(), UserError>)
        requires
            self@.wf(),
            old(storage).wf(),
            old(storage).has_room(1),
        ensures
            final(storage).wf(),
            save_outcome(self@, *old(storage), *final(storage), r),
    {
        let mut buffer = [0u8; BLOCK_SIZE];
        assert(buffer@ =~= zero_block());
        if let Err(e) = serialize_users(self, &mut buffer) {
            return Err(e);
        }
        let w = storage::write_block(storage, USER_DB_BLOCK, buffer.as_slice());
        assert(write_outcome(*old(storage), *storage, USER_DB_BLOCK, user_db_image(self@), w));
        match w {
            Ok(()) => Ok(()),
            Err(_) => Err(UserError::StorageUnavailable),
        }
    }

    /// Replace the table by the one in the user database block.
    pub fn load_from_storage(&mut self, storage: &mut StorageCache) -> (r: Result<(), UserError>)
        requires
            old(self)@.wf(),
            old(storage).wf(),
            old(storage).has_room(1),
        ensures
            final(self)@.wf(),
            final(storage).wf(),
            load_db_outcome(old(self)@, final(self)@, *old(storage), *final(storage), r),
    {
        let mut buffer = [0u8; BLOCK_SIZE];
        assert(buffer@ =~= zero_block());
        let w = storage::read_block(storage, USER_DB_BLOCK, &mut buffer);
        let ghost nb = buffer@;
        proof {
            if w is Ok {
                assert(nb =~= nb.take(BLOCK_SIZE as int));
            }
        }
        if w.is_err() {
            let r = Err(UserError::StorageUnavailable);
            assert(read_outcome(*old(storage), *storage, USER_DB_BLOCK, zero_block(), nb, w));
            return r;
        }
        let r = deserialize_users(self, &buffer);
        assert(read_outcome(*old(storage), *storage, USER_DB_BLOCK, zero_block(), nb, w));
        r
    }
}

/// A successful save followed by a load gives back the saved table's
/// accounts, in slot order in the first slots, with its id counter (1 for a
/// counter of 0) and no session.
pub proof fn law_save_then_load(
    m: UserManagerModel,
    s0: StorageCache,
    s1: StorageCache,
    s2: StorageCache,
    old_m: UserManagerModel,
    new_m: UserManagerModel,
    r: Result<(), UserError>,
)
    requires
        m.wf(),
        s0.wf(),
        s1.wf(),
        save_outcome(m, s0, s1, Ok(())),
        load_db_outcome(old_m, new_m, s1, s2, r),
    ensures
        r is Ok,
        new_m.users == compact(m.users),
        new_m.user_count == m.user_count,
        new_m.next_id == if m.next_id == 0 {
            1
        } else {
            m.next_id
        },
        new_m.current_session is None,
{
    let w = choose|w: Result<(), StorageError>|
        {
            &&& #[trigger] write_outcome(s0, s1, USER_DB_BLOCK, user_db_image(m), w)
            &&& (Ok::<(), UserError>(()) is Ok <==> w is Ok)
            &&& (Ok::<(), UserError>(()) is Err ==> Ok::<(), UserError>(()) == Err::<(), UserError>(
                UserError::StorageUnavailable,
            ))
        };
    assert(w is Ok);
    let (rw, nb) = choose|rw: Result<(), StorageError>, nb: Seq<u8>|
        {
            &&& #[trigger] read_outcome(s1, s2, USER_DB_BLOCK, zero_block(), nb, rw)
            &&& nb.len() == BLOCK_SIZE
            &&& (rw is Ok ==> nb == s1.disk_block(USER_DB_BLOCK))
            &&& (rw is Err ==> r == Err::<(), UserError>(UserError::StorageUnavailable) && new_m == old_m)
            &&& (rw is Ok ==> load_outcome(old_m, new_m, nb, r))
        };
    let img = user_db_image(m);
    lemma_count_bounds(m.users);
    lemma_present_facts(m.users);
    assert forall|k: int| 0 <= k < present(m.users).len() implies (#[trigger] present(m.users)[k]).username.len()
        == USERNAME_MAX by {
        let i = choose|i: int| 0 <= i < m.users.len() && #[trigger] m.users[i] == Some(present(m.users)[k]);
        assert(m.users[i] is Some);
    }
    lemma_encode_records_len(present(m.users));
    assert(encode_db(m).len() <= BLOCK_SIZE);
    assert(img.len() == BLOCK_SIZE);
    // The write left block 2 in the cache, so the read hits.
    let slot = match first_match(s0.entries(), hits_block(USER_DB_BLOCK)) {
        Some(i) => i,
        None => crate::driver::storage::victim(s0.entries()),
    };
    assert(hits_block(USER_DB_BLOCK)(s1.entries()[slot]));
    lemma_first_match_exists(s1.entries(), hits_block(USER_DB_BLOCK), slot);
    assert(rw is Ok);
    crate::driver::storage::law_read_after_write(s0, s1, s2, USER_DB_BLOCK, img, zero_block(), nb, rw);
    assert(nb =~= img.take(BLOCK_SIZE as int));
    assert(nb.take(encode_db(m).len() as int) =~= encode_db(m));
    law_user_db_round_trip(m, nb, old_m, new_m, r);
}

/// Lockout: a wrong password on an active account that has reached one
/// short of `MAX_LOGIN_FAILURES` failures locks it, and the next login,
/// whatever its password, is refused as locked and changes nothing.
pub proof fn law_lockout(
    m0: UserManagerModel,
    m1: UserManagerModel,
    m2: UserManagerModel,
    name: Seq<u8>,
    pw: Seq<u8>,
    pw2: Seq<u8>,
    r1: Result<Session, LoginError>,
    r2: Result<Session, LoginError>,
    i: int,
)
    requires
        first_match(m0.users, slot_named(name)) == Some(i),
        m0.users[i]->0.status == UserStatus::Active,
        m0.users[i]->0.failed_logins + 1 >= MAX_LOGIN_FAILURES,
        m0.users[i]->0.password_hash != spec_hash_password(pw, m0.users[i]->0.salt),
        login_outcome(m0, m1, name, pw, r1),
        login_outcome(m1, m2, name, pw2, r2),
    ensures
        r1 == Err::<Session, LoginError>(LoginError::InvalidCredentials),
        m1.users[i]->0.status == UserStatus::Locked,
        r2 == Err::<Session, LoginError>(LoginError::UserLocked),
        m2 == m1,
{
    let p = slot_named(name);
    assert(is_first_match(m0.users, p, i));
    assert forall|j: int| 0 <= j < i implies !p(#[trigger] m1.users[j]) by {
        assert(m1.users[j] == m0.users[j]);
    }
    assert(is_first_match(m1.users, p, i));
    lemma_first_match_is(m1.users, p, i);
}


/// An account just created can log in with the password it was created
/// with, and the session belongs to it.
pub proof fn law_create_then_login(
    m0: UserManagerModel,
    m1: UserManagerModel,
    m2: UserManagerModel,
    name: Seq<u8>,
    pw: Seq<u8>,
    role: UserRole,
    id: u32,
    r: Result<Session, LoginError>,
)
    requires
        m0.wf(),
        create_outcome(m0, m1, name, pw, role, Ok(id)),
        login_outcome(m1, m2, name, pw, r),
    ensures
        r == Ok::<Session, LoginError>(Session { user_id: id, role, started_at_ticks: 0 }),
        m2.current_session == Some(Session { user_id: id, role, started_at_ticks: 0 }),
{
    let i = first_match(m0.users, slot_free())->0;
    assert(is_first_match(m0.users, slot_free(), i));
    let u = new_user(m0.next_id, name, pw, role);
    assert(m1.users[i] == Some(u));
    assert(name_of(u) =~= name);
    assert forall|j: int| 0 <= j < i implies !slot_named(name)(#[trigger] m1.users[j]) by {
        if slot_named(name)(m1.users[j]) {
            assert(m0.users[j] == m1.users[j]);
            lemma_first_match_exists(m0.users, slot_named(name), j);
        }
    }
    assert(is_first_match(m1.users, slot_named(name), i));
    lemma_first_match_is(m1.users, slot_named(name), i);
}

/// A password other than the one an account was created with is refused:
/// after creating an account with password `pw + [b1]`, logging in with
/// `pw + [b2]` fails with `InvalidCredentials`, for every pair of last bytes
/// whose difference is not one of `last_byte_may_collide`.
pub proof fn law_create_then_wrong_login(
    m0: UserManagerModel,
    m1: UserManagerModel,
    m2: UserManagerModel,
    name: Seq<u8>,
    pw: Seq<u8>,
    b1: u8,
    b2: u8,
    role: UserRole,
    id: u32,
    r: Result<Session, LoginError>,
)
    requires
        m0.wf(),
        b1 != b2,
        !last_byte_may_collide(b1 ^ b2),
        create_outcome(m0, m1, name, pw.push(b1), role, Ok(id)),
        login_outcome(m1, m2, name, pw.push(b2), r),
    ensures
        r == Err::<Session, LoginError>(LoginError::InvalidCredentials),
        m2.current_session == m1.current_session,
{
    let i = first_match(m0.users, slot_free())->0;
    assert(is_first_match(m0.users, slot_free(), i));
    let u = new_user(m0.next_id, name, pw.push(b1), role);
    assert(m1.users[i] == Some(u));
    assert(name_of(u) =~= name);
    assert forall|j: int| 0 <= j < i implies !slot_named(name)(#[trigger] m1.users[j]) by {
        if slot_named(name)(m1.users[j]) {
            assert(m0.users[j] == m1.users[j]);
            lemma_first_match_exists(m0.users, slot_named(name), j);
        }
    }
    assert(is_first_match(m1.users, slot_named(name), i));
    lemma_first_match_is(m1.users, slot_named(name), i);
    law_hash_last_byte(pw, b1, b2, u.salt);
}

// ---------------------------------------------------------------------------
// System-wide account operations: each change is saved to storage.
// ---------------------------------------------------------------------------

/// Some save of table `m` took the storage stack from `old` to `new`.
pub open spec fn saved(m: UserManagerModel, old: StorageCache, new: StorageCache) -> bool {
    exists|r: Result<(), UserError>| #[trigger] save_outcome(m, old, new, r)
}

/// Reset the account table to the built-in administrator.
pub fn init(manager: &mut UserManager)
    ensures
        final(manager)@.wf(),
        final(manager)@ == default_table(),
{
    manager.reset_with_default_admin();
}

/// Load the account table from storage; if the stored database is corrupt,
/// start over with the built-in administrator and save that.
pub fn load_or_create_default(manager: &mut UserManager, storage: &mut StorageCache) -> (r: Result<
    (),
    UserError,
>)
    requires
        old(manager)@.wf(),
        old(storage).wf(),
        old(storage).has_room(2),
    ensures
        final(manager)@.wf(),
        final(storage).wf(),
        exists|m: UserManagerModel, s: StorageCache, r1: Result<(), UserError>|
            {
                &&& #[trigger] load_db_outcome(old(manager)@, m, *old(storage), s, r1)
                &&& r1 != Err::<(), UserError>(UserError::CorruptDatabase) ==> r == r1 && final(manager)@ == m
                    && *final(storage) == s
                &&& r1 == Err::<(), UserError>(UserError::CorruptDatabase) ==> final(manager)@ == default_table()
                    && save_outcome(default_table(), s, *final(storage), r)
            },
{
    let r1 = manager.load_from_storage(storage);
    let ghost m = manager@;
    let ghost s = *storage;
    proof {
        let (w, nb) = choose|w: Result<(), StorageError>, nb: Seq<u8>|
            {
                &&& #[trigger] read_outcome(*old(storage), s, USER_DB_BLOCK, zero_block(), nb, w)
                &&& nb.len() == BLOCK_SIZE
                &&& (w is Ok ==> nb == old(storage).disk_block(USER_DB_BLOCK))
                &&& (w is Err ==> r1 == Err::<(), UserError>(UserError::StorageUnavailable) && m == old(manager)@)
                &&& (w is Ok ==> load_outcome(old(manager)@, m, nb, r1))
            };
        lemma_read_room(*old(storage), s, nb, w);
    }
    match r1 {
        Ok(()) => {
            assert(load_db_outcome(old(manager)@, m, *old(storage), s, r1));
            Ok(())
        },
        Err(UserError::CorruptDatabase) => {
            manager.reset_with_default_admin();
            let r = manager.save_to_storage(storage);
            assert(load_db_outcome(old(manager)@, m, *old(storage), s, r1));
            r
        },
        Err(err) => {
            assert(load_db_outcome(old(manager)@, m, *old(storage), s, r1));
            Err(err)
        },
    }
}

proof fn lemma_read_room(s0: StorageCache, s1: StorageCache, nb: Seq<u8>, w: Result<(), StorageError>)
    requires
        s0.has_room(2),
        read_outcome(s0, s1, USER_DB_BLOCK, zero_block(), nb, w),
    ensures
        s1.has_room(1),
{
}

/// Create a standard account and save the table.
pub fn register_user(manager: &mut UserManager, storage: &mut StorageCache, username: &str, password: &str) -> (r:
    Result<u32, UserError>)
    requires
        old(manager)@.wf(),
        old(storage).wf(),
        old(storage).has_room(1),
        old(manager)@.would_create(username.spec_bytes(), password.spec_bytes()) ==> old(manager)@.next_id
            < u32::MAX,
    ensures
        final(manager)@.wf(),
        final(storage).wf(),
        create_outcome(old(manager)@, final(manager)@, username.spec_bytes(), password.spec_bytes(), UserRole::Standard, r),
        r is Ok ==> saved(final(manager)@, *old(storage), *final(storage)),
        r is Err ==> *final(storage) == *old(storage),
{
    let id = match manager.create_user(username, password, UserRole::Standard) {
        Ok(id) => id,
        Err(e) => {
            return Err(e);
        },
    };
    let sr = manager.save_to_storage(storage);
    assert(save_outcome(manager@, *old(storage), *storage, sr));
    Ok(id)
}

/// Create an account with `role` (administrators only) and save the table.
pub fn create_user_as_admin(
    manager: &mut UserManager,
    storage: &mut StorageCache,
    username: &str,
    password: &str,
    role: UserRole,
) -> (r: Result<u32, UserError>)
    requires
        old(manager)@.wf(),
        old(storage).wf(),
        old(storage).has_room(1),
        old(manager)@.would_create(username.spec_bytes(), password.spec_bytes()) ==> old(manager)@.next_id
            < u32::MAX,
    ensures
        final(manager)@.wf(),
        final(storage).wf(),
        !old(manager)@.is_admin_session() ==> r == Err::<u32, UserError>(UserError::PermissionDenied)
            && final(manager)@ == old(manager)@,
        old(manager)@.is_admin_session() ==> create_outcome(
            old(manager)@,
            final(manager)@,
            username.spec_bytes(),
            password.spec_bytes(),
            role,
            r,
        ),
        r is Ok ==> saved(final(manager)@, *old(storage), *final(storage)),
        r is Err ==> *final(storage) == *old(storage),
{
    if let Err(e) = manager.require_admin() {
        return Err(e);
    }
    let id = match manager.create_user(username, password, role) {
        Ok(id) => id,
        Err(e) => {
            return Err(e);
        },
    };
    let sr = manager.save_to_storage(storage);
    assert(save_outcome(manager@, *old(storage), *storage, sr));
    Ok(id)
}

/// Log in and save the table (failed-login counts are persistent).
pub fn login(manager: &mut UserManager, storage: &mut StorageCache, username: &str, password: &str) -> (r:
    Result<Session, LoginError>)
    requires
        old(manager)@.wf(),
        old(storage).wf(),
        old(storage).has_room(1),
    ensures
        final(manager)@.wf(),
        final(storage).wf(),
        login_outcome(old(manager)@, final(manager)@, username.spec_bytes(), password.spec_bytes(), r),
        saved(final(manager)@, *old(storage), *final(storage)),
{
    let result = manager.login(username, password);
    let sr = manager.save_to_storage(storage);
    assert(save_outcome(manager@, *old(storage), *storage, sr));
    result
}

/// End the current session.
pub fn logout(manager: &mut UserManager)
    requires
        old(manager)@.wf(),
    ensures
        final(manager)@.wf(),
        final(manager)@ == (UserManagerModel { current_session: None, ..old(manager)@ }),
{
    manager.logout();
}

/// The current session.
pub fn current_session(manager: &UserManager) -> (r: Option<Session>)
    ensures
        r == manager@.current_session,
{
    manager.current_session()
}

/// The account of the current session.
pub fn current_user(manager: &UserManager) -> (r: Option<User>)
    requires
        manager@.wf(),
    ensures
        opt_user(r) == match manager@.current_session {
            Some(s) => manager@.by_id(s.user_id),
            None => None,
        },
{
    manager.current_user()
}

/// All account slots.
pub fn list_users(manager: &UserManager) -> (r: [Option<User>; MAX_USERS])
    ensures
        r@.map_values(|o: Option<User>| opt_user(o)) == manager@.users,
{
    manager.list_users()
}

/// Number of accounts.
pub fn user_count(manager: &UserManager) -> (r: usize)
    ensures
        r == manager@.user_count,
{
    manager.user_count()
}

/// Change an account's role (administrators only) and save the table.
pub fn set_user_role(manager: &mut UserManager, storage: &mut StorageCache, user_id: u32, role: UserRole) -> (r:
    Result<(), UserError>)
    requires
        old(manager)@.wf(),
        old(storage).wf(),
        old(storage).has_room(1),
    ensures
        final(manager)@.wf(),
        final(storage).wf(),
        admin_update_outcome(old(manager)@, final(manager)@, user_id, with_role(role), r),
        r is Ok ==> saved(final(manager)@, *old(storage), *final(storage)),
        r is Err ==> *final(storage) == *old(storage),
{
    if let Err(e) = manager.set_role(user_id, role) {
        return Err(e);
    }
    let sr = manager.save_to_storage(storage);
    assert(save_outcome(manager@, *old(storage), *storage, sr));
    Ok(())
}

/// Change an account's status (administrators only) and save the table.
pub fn set_user_status(manager: &mut UserManager, storage: &mut StorageCache, user_id: u32, status: UserStatus) -> (r:
    Result<(), UserError>)
    requires
        old(manager)@.wf(),
        old(storage).wf(),
        old(storage).has_room(1),
    ensures
        final(manager)@.wf(),
        final(storage).wf(),
        admin_update_outcome(old(manager)@, final(manager)@, user_id, with_status(status), r),
        r is Ok ==> saved(final(manager)@, *old(storage), *final(storage)),
        r is Err ==> *final(storage) == *old(storage),
{
    if let Err(e) = manager.set_status(user_id, status) {
        return Err(e);
    }
    let sr = manager.save_to_storage(storage);
    assert(save_outcome(manager@, *old(storage), *storage, sr));
    Ok(())
}

/// Delete an account (administrators only) and save the table.
pub fn delete_user(manager: &mut UserManager, storage: &mut StorageCache, user_id: u32) -> (r: Result<(), UserError>)
    requires
        old(manager)@.wf(),
        old(storage).wf(),
        old(storage).has_room(1),
    ensures
        final(manager)@.wf(),
        final(storage).wf(),
        delete_outcome(old(manager)@, final(manager)@, user_id, r),
        r is Ok ==> saved(final(manager)@, *old(storage), *final(storage)),
        r is Err ==> *final(storage) == *old(storage),
{
    if let Err(e) = manager.delete_user(user_id) {
        return Err(e);
    }
    let sr = manager.save_to_storage(storage);
    assert(save_outcome(manager@, *old(storage), *storage, sr));
    Ok(())
}

/// Change an account's password given the current one, and save the table.
pub fn change_password(
    manager: &mut UserManager,
    storage: &mut StorageCache,
    user_id: u32,
    old_password: &str,
    new_password: &str,
) -> (r: Result<(), UserError>)
    requires
        old(manager)@.wf(),
        old(storage).wf(),
        old(storage).has_room(1),
    ensures
        final(manager)@.wf(),
        final(storage).wf(),
        change_password_outcome(
            old(manager)@,
            final(manager)@,
            user_id,
            old_password.spec_bytes(),
            new_password.spec_bytes(),
            r,
        ),
        r is Ok ==> saved(final(manager)@, *old(storage), *final(storage)),
        r is Err ==> *final(storage) == *old(storage),
{
    if let Err(e) = manager.change_password(user_id, old_password, new_password) {
        return Err(e);
    }
    let sr = manager.save_to_storage(storage);
    assert(save_outcome(manager@, *old(storage), *storage, sr));
    Ok(())
}

/// Set an account's password (administrators only) and save the table.
pub fn reset_password_as_admin(
    manager: &mut UserManager,
    storage: &mut StorageCache,
    user_id: u32,
    new_password: &str,
) -> (r: Result<(), UserError>)
    requires
        old(manager)@.wf(),
        old(storage).wf(),
        old(storage).has_room(1),
    ensures
        final(manager)@.wf(),
        final(storage).wf(),
        reset_password_outcome(old(manager)@, final(manager)@, user_id, new_password.spec_bytes(), r),
        r is Ok ==> saved(final(manager)@, *old(storage), *final(storage)),
        r is Err ==> *final(storage) == *old(storage),
{
    if let Err(e) = manager.reset_password_as_admin(user_id, new_password) {
        return Err(e);
    }
    let sr = manager.save_to_storage(storage);
    assert(save_outcome(manager@, *old(storage), *storage, sr));
    Ok(())
}

} // verus!
