//! Identity and access-control primitives.
use vstd::prelude::*;

use crate::counter::{bump, bumped};

verus! {

#[derive(Debug, Clone, Copy, PartialEq, Eq, Structural)]
pub struct UserId(pub u64);

impl UserId {
    pub fn from_raw(raw: u64) -> (r: Self)
        ensures
            r.0 == raw,
    {
        Self(raw)
    }

    pub fn as_u64(self) -> (r: u64)
        ensures
            r == self.0,
    {
        self.0
    }
}

#[derive(Debug, Clone, Copy, PartialEq, Eq, Structural)]
pub enum Role {
    Kernel,
    Admin,
    User,
    Guest,
}

pub open spec fn role_code(role: Role) -> u64 {
    match role {
        Role::Kernel => 0,
        Role::Admin => 1,
        Role::User => 2,
        Role::Guest => 3,
    }
}

pub open spec fn role_of_code(raw: u64) -> Role {
    if raw == 0 {
        Role::Kernel
    } else if raw == 1 {
        Role::Admin
    } else if raw == 3 {
        Role::Guest
    } else {
        Role::User
    }
}

impl Role {
    pub fn as_u64(self) -> (r: u64)
        ensures
            r == role_code(self),
    {
        match self {
            Role::Kernel => 0,
            Role::Admin => 1,
            Role::User => 2,
            Role::Guest => 3,
        }
    }

    /// Decode a role code; every unknown code decodes to `User`.
    pub fn from_u64(raw: u64) -> (r: Self)
        ensures
            r == role_of_code(raw),
    {
        match raw {
            0 => Role::Kernel,
            1 => Role::Admin,
            3 => Role::Guest,
            _ => Role::User,
        }
    }

    pub fn name(self) -> (r: &'static str)
        ensures
            self == Role::Kernel ==> r@ == "kernel"@,
            self == Role::Admin ==> r@ == "admin"@,
            self == Role::User ==> r@ == "user"@,
            self == Role::Guest ==> r@ == "guest"@,
    {
        match self {
            Role::Kernel => "kernel",
            Role::Admin => "admin",
            Role::User => "user",
            Role::Guest => "guest",
        }
    }
}

/// Decoding an encoded role gives the role back.
pub proof fn lemma_role_code_round_trip(role: Role)
    ensures
        role_of_code(role_code(role)) == role,
{
}

#[derive(Debug, Clone, Copy, PartialEq, Eq, Structural)]
pub struct Credentials {
    pub user: UserId,
    pub role: Role,
}

pub open spec fn manages(c: Credentials) -> bool {
    c.role == Role::Kernel || c.role == Role::Admin
}

impl Credentials {
    pub fn kernel() -> (r: Self)
        ensures
            r.user.0 == 0 && r.role == Role::Kernel,
    {
        Self { user: UserId(0), role: Role::Kernel }
    }

    pub fn admin() -> (r: Self)
        ensures
            r.user.0 == 1 && r.role == Role::Admin,
    {
        Self { user: UserId(1), role: Role::Admin }
    }

    pub fn shell_user() -> (r: Self)
        ensures
            r.user.0 == 100 && r.role == Role::User,
    {
        Self { user: UserId(100), role: Role::User }
    }

    pub fn guest() -> (r: Self)
        ensures
            r.user.0 == 65534 && r.role == Role::Guest,
    {
        Self { user: UserId(65534), role: Role::Guest }
    }

    pub fn can_manage(self) -> (r: bool)
        ensures
            r == manages(self),
    {
        match self.role {
            Role::Kernel | Role::Admin => true,
            _ => false,
        }
    }
}

#[derive(Debug, Clone, Copy, PartialEq, Eq, Structural)]
pub enum AccessKind {
    Read,
    Write,
    Execute,
    Manage,
}

#[derive(Debug, Clone, Copy, PartialEq, Eq, Structural)]
pub enum SecurityError {
    PermissionDenied,
}

pub const FILE_MODE_READ: u8 = 0b001;
pub const FILE_MODE_WRITE: u8 = 0b010;
pub const FILE_MODE_EXECUTE: u8 = 0b100;

#[derive(Debug, Clone, Copy, PartialEq, Eq, Structural)]
pub struct FileMode {
    bits: u8,
}

/// Whether a permission-bit set grants an access kind (`Manage` is never
/// granted by bits).
pub open spec fn mode_allows(bits: u8, access: AccessKind) -> bool {
    match access {
        AccessKind::Read => bits & 1 != 0,
        AccessKind::Write => bits & 2 != 0,
        AccessKind::Execute => bits & 4 != 0,
        AccessKind::Manage => false,
    }
}

impl FileMode {
    pub const READ: u8 = 0b001;
    pub const WRITE: u8 = 0b010;
    pub const EXECUTE: u8 = 0b100;

    pub closed spec fn spec_bits(self) -> u8 {
        self.bits
    }

    pub fn from_bits(bits: u8) -> (r: Self)
        ensures
            r.spec_bits() == bits & 7,
    {
        Self { bits: bits & 0b111 }
    }

    pub fn bits(self) -> (r: u8)
        ensures
            r == self.spec_bits(),
    {
        self.bits
    }

    pub fn read_only() -> (r: Self)
        ensures
            r.spec_bits() == 1,
    {
        Self { bits: 1 }
    }

    pub fn user_file() -> (r: Self)
        ensures
            r.spec_bits() == 3,
    {
        Self { bits: 3 }
    }

    pub fn executable() -> (r: Self)
        ensures
            r.spec_bits() == 5,
    {
        Self { bits: 5 }
    }

    pub fn system_executable() -> (r: Self)
        ensures
            r.spec_bits() == 5,
    {
        Self { bits: 5 }
    }

    pub fn allows(self, access: AccessKind) -> (r: bool)
        ensures
            r == mode_allows(self.spec_bits(), access),
    {
        match access {
            AccessKind::Read => self.bits & 1 != 0,
            AccessKind::Write => self.bits & 2 != 0,
            AccessKind::Execute => self.bits & 4 != 0,
            AccessKind::Manage => false,
        }
    }

    /// Set or clear the execute bit, leaving the other bits as they were.
    pub fn set_execute(&mut self, enabled: bool)
        ensures
            enabled ==> final(self).spec_bits() == old(self).spec_bits() | 4,
            !enabled ==> final(self).spec_bits() == old(self).spec_bits() & !4u8,
    {
        if enabled {
            self.bits = self.bits | 4;
        } else {
            self.bits = self.bits & !4u8;
        }
    }
}

/// After `set_execute(e)` execute permission is `e` and read/write
/// permissions are unchanged.
pub proof fn lemma_set_execute_effect(bits: u8, enabled: bool)
    ensures
        ({
            let nb = if enabled { bits | 4 } else { bits & !4u8 };
            &&& mode_allows(nb, AccessKind::Execute) == enabled
            &&& mode_allows(nb, AccessKind::Read) == mode_allows(bits, AccessKind::Read)
            &&& mode_allows(nb, AccessKind::Write) == mode_allows(bits, AccessKind::Write)
        }),
{
    assert((bits | 4) & 4 != 0) by (bit_vector);
    assert((bits & !4u8) & 4 == 0) by (bit_vector);
    assert(((bits | 4) & 1 != 0) == (bits & 1 != 0)) by (bit_vector);
    assert(((bits & !4u8) & 1 != 0) == (bits & 1 != 0)) by (bit_vector);
    assert(((bits | 4) & 2 != 0) == (bits & 2 != 0)) by (bit_vector);
    assert(((bits & !4u8) & 2 != 0) == (bits & 2 != 0)) by (bit_vector);
}

#[derive(Debug, Clone, Copy, PartialEq, Eq, Structural)]
pub struct AccessDecision {
    pub allowed: bool,
}

/// The access policy: managers may do anything; writes need ownership plus
/// the write bit; reads and executes need the matching bit.
pub open spec fn access_allowed(
    credentials: Credentials,
    owner: UserId,
    mode_bits: u8,
    access: AccessKind,
) -> bool {
    match access {
        AccessKind::Manage => manages(credentials),
        AccessKind::Write => manages(credentials) || (credentials.user == owner && mode_allows(
            mode_bits,
            access,
        )),
        _ => manages(credentials) || mode_allows(mode_bits, access),
    }
}

/// What a file's mode grants: reading, writing and executing each come from
/// their own bit alone (1, 2 and 4), and managing from none. To anyone but a
/// kernel or admin identity, writing is granted only to the owner and only
/// when the write bit is set (a read-only file is never writable), reading
/// and executing whenever their bit is set, and managing never; kernel and
/// admin identities are granted everything.
pub proof fn lemma_access_by_mode_bits(credentials: Credentials, owner: UserId, bits: u8)
    ensures
        mode_allows(bits, AccessKind::Read) == (bits & 1 != 0),
        mode_allows(bits, AccessKind::Write) == (bits & 2 != 0),
        mode_allows(bits, AccessKind::Execute) == (bits & 4 != 0),
        !mode_allows(bits, AccessKind::Manage),
        credentials.role != Role::Kernel && credentials.role != Role::Admin ==> {
            &&& access_allowed(credentials, owner, bits, AccessKind::Write) == (credentials.user == owner && bits & 2 != 0)
            &&& access_allowed(credentials, owner, bits, AccessKind::Read) == (bits & 1 != 0)
            &&& access_allowed(credentials, owner, bits, AccessKind::Execute) == (bits & 4 != 0)
            &&& !access_allowed(credentials, owner, bits, AccessKind::Manage)
        },
        credentials.role == Role::Kernel || credentials.role == Role::Admin ==> {
            &&& access_allowed(credentials, owner, bits, AccessKind::Write)
            &&& access_allowed(credentials, owner, bits, AccessKind::Read)
            &&& access_allowed(credentials, owner, bits, AccessKind::Execute)
            &&& access_allowed(credentials, owner, bits, AccessKind::Manage)
        },
{
}

/// The current identity and the denial counters of the security subsystem.
pub struct SecurityState {
    pub current_user: u64,
    pub current_role: u64,
    pub denied_access: u64,
    pub denied_execute: u64,
}

impl SecurityState {
    /// The boot state: the shell user is current and nothing was denied yet.
    pub fn new() -> (r: Self)
        ensures
            r.current_user == 100,
            r.current_role == 2,
            r.denied_access == 0,
            r.denied_execute == 0,
    {
        SecurityState { current_user: 100, current_role: 2, denied_access: 0, denied_execute: 0 }
    }
}

pub fn current_credentials(state: &SecurityState) -> (r: Credentials)
    ensures
        r.user.0 == state.current_user,
        r.role == role_of_code(state.current_role),
{
    Credentials { user: UserId(state.current_user), role: Role::from_u64(state.current_role) }
}

pub fn set_current_credentials(state: &mut SecurityState, credentials: Credentials)
    ensures
        final(state).current_user == credentials.user.0,
        final(state).current_role == role_code(credentials.role),
        final(state).denied_access == old(state).denied_access,
        final(state).denied_execute == old(state).denied_execute,
{
    state.current_user = credentials.user.0;
    state.current_role = credentials.role.as_u64();
}

/// What is set as the current identity is read back.
pub proof fn lemma_credentials_round_trip(state: SecurityState, credentials: Credentials)
    requires
        state.current_user == credentials.user.0,
        state.current_role == role_code(credentials.role),
    ensures
        role_of_code(state.current_role) == credentials.role,
{
}

pub fn denied_access_count(state: &SecurityState) -> (r: u64)
    ensures
        r == state.denied_access,
{
    state.denied_access
}

pub fn denied_execute_count(state: &SecurityState) -> (r: u64)
    ensures
        r == state.denied_execute,
{
    state.denied_execute
}

pub fn record_denial(state: &mut SecurityState, access: AccessKind)
    ensures
        final(state).denied_access == bumped(old(state).denied_access),
        final(state).denied_execute == if access == AccessKind::Execute {
            bumped(old(state).denied_execute)
        } else {
            old(state).denied_execute
        },
        final(state).current_user == old(state).current_user,
        final(state).current_role == old(state).current_role,
{
    state.denied_access = bump(state.denied_access);
    if access == AccessKind::Execute {
        state.denied_execute = bump(state.denied_execute);
    }
}

pub fn can_access(
    credentials: Credentials,
    owner: UserId,
    mode: FileMode,
    access: AccessKind,
) -> (r: Result<AccessDecision, SecurityError>)
    ensures
        access_allowed(credentials, owner, mode.spec_bits(), access) ==> r == Ok::<
            AccessDecision,
            SecurityError,
        >(AccessDecision { allowed: true }),
        !access_allowed(credentials, owner, mode.spec_bits(), access) ==> r == Err::<
            AccessDecision,
            SecurityError,
        >(SecurityError::PermissionDenied),
{
    let allowed = match access {
        AccessKind::Manage => credentials.can_manage(),
        AccessKind::Write => credentials.can_manage() || (credentials.user == owner
            && mode.allows(access)),
        AccessKind::Read | AccessKind::Execute => credentials.can_manage() || mode.allows(access)
            || (credentials.user == owner && mode.allows(access)),
    };
    if allowed {
        Ok(AccessDecision { allowed: true })
    } else {
        Err(SecurityError::PermissionDenied)
    }
}

/// Kernel and admin credentials are granted every access kind on every file.
pub proof fn lemma_managers_allowed_everything(
    credentials: Credentials,
    owner: UserId,
    mode_bits: u8,
    access: AccessKind,
)
    requires
        manages(credentials),
    ensures
        access_allowed(credentials, owner, mode_bits, access),
{
}

/// Only managers are granted `Manage`, and a non-owner non-manager is never
/// granted `Write`.
pub proof fn lemma_non_managers_limits(
    credentials: Credentials,
    owner: UserId,
    mode_bits: u8,
)
    requires
        !manages(credentials),
    ensures
        !access_allowed(credentials, owner, mode_bits, AccessKind::Manage),
        credentials.user != owner ==> !access_allowed(
            credentials,
            owner,
            mode_bits,
            AccessKind::Write,
        ),
{
}

pub fn can_manage_process(actor: Credentials, owner: Credentials) -> (r: bool)
    ensures
        r == (manages(actor) || actor.user == owner.user),
{
    actor.can_manage() || actor.user == owner.user
}

pub fn smoke_access_policy() -> (r: bool)
    ensures
        r,
{
    let user = Credentials::shell_user();
    let admin = Credentials::admin();
    let owner = user.user;
    let uf = FileMode::user_file();
    let se = FileMode::system_executable();
    assert(3u8 & 2 != 0) by (bit_vector);
    let a = can_access(user, owner, uf, AccessKind::Write).is_ok();
    let b = can_access(user, UserId::from_raw(1), se, AccessKind::Write).is_err();
    let c = can_access(admin, UserId::from_raw(1), se, AccessKind::Manage).is_ok();
    a && b && c
}

} // verus!
