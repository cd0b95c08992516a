use vstd::prelude::*;

use crate::logging::LogConfig;
use crate::platform::{fresh_uuid, sha256_hex, sha256_hex_of};
use crate::strutil::eq_str;
use crate::types::{AuthResponse, UpdateNicknameResponse};

verus! {

/// The node's persisted settings: its nickname, the salted hash of the
/// admin password, and the devices allowed to log in.
pub struct ServerConfig {
    pub nickname: String,
    pub password_hash: String,
    pub authorized_devices: Vec<String>,
    pub salt: String,
    pub log_config: LogConfig,
}

impl ServerConfig {
    /// No device is listed twice.
    pub open spec fn wf(self) -> bool {
        forall|i: int, j: int|
            0 <= i < j < self.authorized_devices@.len()
                ==> (#[trigger] self.authorized_devices@[i])@
                != (#[trigger] self.authorized_devices@[j])@
    }

    /// The device is in the authorized set.
    pub open spec fn device_listed(self, id: Seq<char>) -> bool {
        exists|i: int|
            0 <= i < self.authorized_devices@.len()
                && (#[trigger] self.authorized_devices@[i])@ == id
    }

    /// The password matches the stored salted hash.
    pub open spec fn password_ok(self, password: Seq<char>) -> bool {
        sha256_hex_of(password + self.salt@) == self.password_hash@
    }

    /// A fresh configuration: a random salt, the salted hash of the
    /// given password, and no device authorized yet.
    pub fn new(nickname: String, password: &str) -> (r: ServerConfig)
        ensures
            r.wf(),
            r.nickname@ == nickname@,
            r.password_ok(password@),
            r.authorized_devices@.len() == 0,
            r.log_config.show_requests && r.log_config.show_responses,
            r.log_config.quiet_endpoints@.len() == 0,
    {
        let salt = fresh_uuid();
        let password_hash = sha256_hex(password, salt.as_str());
        ServerConfig {
            nickname,
            password_hash,
            authorized_devices: Vec::new(),
            salt,
            log_config: LogConfig::new(),
        }
    }

    /// Checks a password against the stored salted hash.
    pub fn verify_password(&self, password: &str) -> (r: bool)
        ensures
            r == self.password_ok(password@),
    {
        let hash = sha256_hex(password, self.salt.as_str());
        eq_str(hash.as_str(), self.password_hash.as_str())
    }

    /// Is this device in the authorized set?
    pub fn is_device_authorized(&self, device_id: &str) -> (r: bool)
        ensures
            r == self.device_listed(device_id@),
    {
        let mut i: usize = 0;
        while i < self.authorized_devices.len()
            invariant
                i <= self.authorized_devices@.len(),
                forall|j: int|
                    0 <= j < i ==> (#[trigger] self.authorized_devices@[j])@ != device_id@,
            decreases self.authorized_devices@.len() - i,
        {
            if eq_str(self.authorized_devices[i].as_str(), device_id) {
                return true;
            }
            i += 1;
        }
        false
    }

    /// Adds the device to the authorized set; listing it twice changes
    /// nothing. The caller persists the configuration afterwards.
    pub fn authorize_device(&mut self, device_id: String)
        requires
            old(self).wf(),
        ensures
            final(self).wf(),
            final(self).device_listed(device_id@),
            final(self).nickname == old(self).nickname,
            final(self).password_hash == old(self).password_hash,
            final(self).salt == old(self).salt,
            final(self).log_config == old(self).log_config,
            old(self).device_listed(device_id@) ==> final(self).authorized_devices@ == old(
                self,
            ).authorized_devices@,
            !old(self).device_listed(device_id@) ==> final(self).authorized_devices@ == old(
                self,
            ).authorized_devices@.push(device_id),
            forall|id: Seq<char>|
                #[trigger] final(self).device_listed(id) == (old(self).device_listed(id) || id
                    == device_id@),
    {
        if self.is_device_authorized(device_id.as_str()) {
            proof {
                assert forall|id: Seq<char>|
                    #[trigger] self.device_listed(id) == (self.device_listed(id) || id
                        == device_id@) by {}
            }
            return;
        }
        let ghost prev = self.authorized_devices@;
        self.authorized_devices.push(device_id);
        proof {
            assert(self.authorized_devices@[prev.len() as int]@ == device_id@);
            assert forall|i: int, j: int|
                0 <= i < j < self.authorized_devices@.len() implies (
            #[trigger] self.authorized_devices@[i])@ != (
            #[trigger] self.authorized_devices@[j])@ by {
                if j < prev.len() {
                    assert(prev[i]@ != prev[j]@);
                } else {
                    assert(self.authorized_devices@[i]@ != device_id@);
                }
            }
            assert forall|id: Seq<char>|
                #[trigger] self.device_listed(id) == (old(self).device_listed(id) || id
                    == device_id@) by {
                if self.device_listed(id) {
                    let i = choose|i: int|
                        0 <= i < self.authorized_devices@.len() && (
                        #[trigger] self.authorized_devices@[i])@ == id;
                    if i < prev.len() {
                        assert(old(self).device_listed(id));
                    }
                }
                if old(self).device_listed(id) {
                    let i = choose|i: int|
                        0 <= i < prev.len() && (#[trigger] prev[i])@ == id;
                    assert(self.authorized_devices@[i]@ == id);
                }
                if id == device_id@ {
                    assert(self.authorized_devices@[prev.len() as int]@ == id);
                }
            }
        }
    }

    /// Removes the device from the authorized set.
    pub fn revoke_device(&mut self, device_id: &str)
        requires
            old(self).wf(),
        ensures
            final(self).wf(),
            !final(self).device_listed(device_id@),
            final(self).nickname == old(self).nickname,
            final(self).password_hash == old(self).password_hash,
            final(self).salt == old(self).salt,
            final(self).log_config == old(self).log_config,
            forall|id: Seq<char>|
                #[trigger] final(self).device_listed(id) == (old(self).device_listed(id) && id
                    != device_id@),
    {
        let mut i: usize = 0;
        loop
            invariant
                old(self).wf(),
                *self == *old(self),
                i <= self.authorized_devices@.len(),
                forall|j: int|
                    0 <= j < i ==> (#[trigger] self.authorized_devices@[j])@ != device_id@,
            ensures
                *self == *old(self),
                i <= self.authorized_devices@.len(),
                forall|j: int|
                    0 <= j < i ==> (#[trigger] self.authorized_devices@[j])@ != device_id@,
                i < self.authorized_devices@.len() ==> self.authorized_devices@[i as int]@
                    == device_id@,
                i == self.authorized_devices@.len() ==> !self.device_listed(device_id@),
            decreases self.authorized_devices@.len() - i,
        {
            if i == self.authorized_devices.len() {
                proof {
                    assert forall|k: int|
                        0 <= k < self.authorized_devices@.len() implies (
                    #[trigger] self.authorized_devices@[k])@ != device_id@ by {}
                }
                break;
            }
            if eq_str(self.authorized_devices[i].as_str(), device_id) {
                break;
            }
            i += 1;
        }
        if i == self.authorized_devices.len() {
            proof {
                assert forall|id: Seq<char>|
                    #[trigger] self.device_listed(id) == (old(self).device_listed(id) && id
                        != device_id@) by {}
            }
            return;
        }
        let ghost prev = self.authorized_devices@;
        self.authorized_devices.remove(i);
        proof {
            let cur = self.authorized_devices@;
            assert(cur == prev.remove(i as int));
            assert forall|a: int, b: int| 0 <= a < b < cur.len() implies (#[trigger] cur[a])@ != (
            #[trigger] cur[b])@ by {
                let a0 = if a < i as int {
                    a
                } else {
                    a + 1
                };
                let b0 = if b < i as int {
                    b
                } else {
                    b + 1
                };
                assert(cur[a] == prev[a0] && cur[b] == prev[b0]);
                assert(prev[a0]@ != prev[b0]@);
            }
            assert forall|id: Seq<char>|
                #[trigger] self.device_listed(id) == (old(self).device_listed(id) && id
                    != device_id@) by {
                if self.device_listed(id) {
                    let k = choose|k: int| 0 <= k < cur.len() && (#[trigger] cur[k])@ == id;
                    let k0 = if k < i as int {
                        k
                    } else {
                        k + 1
                    };
                    assert(prev[k0]@ == id);
                    assert(old(self).device_listed(id));
                    assert(id != device_id@) by {
                        if id == device_id@ {
                            assert(prev[k0]@ == prev[i as int]@);
                        }
                    }
                }
                if old(self).device_listed(id) && id != device_id@ {
                    let k0 = choose|k0: int| 0 <= k0 < prev.len() && (#[trigger] prev[k0])@ == id;
                    let k = if k0 < i as int {
                        k0
                    } else {
                        k0 - 1
                    };
                    assert(cur[k] == prev[k0]);
                    assert(self.device_listed(id));
                }
            }
        }
    }
}

impl Default for ServerConfig {
    /// The configuration a node falls back to before setup: nickname
    /// `Unknown`, the password `admin`, and no device authorized.
    fn default() -> (r: ServerConfig)
        ensures
            r.wf(),
            r.nickname@ == "Unknown"@,
            r.password_ok("admin"@),
            r.authorized_devices@.len() == 0,
    {
        ServerConfig::new(String::from_str("Unknown"), "admin")
    }
}

/// Applies a nickname update to the in-memory configuration and hands
/// back the previous name. The caller persists the configuration and
/// reports through `nickname_update_response`; the in-memory state
/// keeps the new name even when persisting fails, so the session stays
/// usable.
pub fn update_nickname(config: &mut ServerConfig, new_nickname: String) -> (old_nick: String)
    ensures
        final(config).nickname == new_nickname,
        old_nick == old(config).nickname,
        final(config).password_hash == old(config).password_hash,
        final(config).authorized_devices == old(config).authorized_devices,
        final(config).salt == old(config).salt,
        final(config).log_config == old(config).log_config,
{
    let old_nick = config.nickname.clone();
    config.nickname = new_nickname;
    old_nick
}

/// The answer to a nickname update: the new name when the configuration
/// was persisted, otherwise a failure that still names the old nickname
/// as the one on record durably.
pub fn nickname_update_response(saved: bool, old_nickname: String, new_nickname: String) -> (r:
    UpdateNicknameResponse)
    ensures
        r.success == saved,
        r.old_nickname == old_nickname,
        saved ==> r.message@ == "Nickname updated successfully"@ && r.new_nickname == new_nickname,
        !saved ==> r.message@ == "Failed to save nickname"@ && r.new_nickname@ == old_nickname@,
{
    if saved {
        UpdateNicknameResponse {
            success: true,
            message: String::from_str("Nickname updated successfully"),
            old_nickname,
            new_nickname,
        }
    } else {
        let kept = old_nickname.clone();
        UpdateNicknameResponse {
            success: false,
            message: String::from_str("Failed to save nickname"),
            old_nickname,
            new_nickname: kept,
        }
    }
}

/// How a login attempt ends: a fresh bearer token, or one of the two
/// refusals that are told apart.
#[derive(Clone, Debug, PartialEq)]
pub enum LoginOutcome {
    Granted(String),
    WrongPassword,
    DeviceNotAuthorized,
}

/// Issues and checks bearer tokens for devices that have completed
/// authorization. Tokens live only in process memory.
pub struct AuthGate {
    /// Each issued token with the device it was issued to.
    pub tokens: Vec<(String, String)>,
}

impl AuthGate {
    /// A token that has been issued.
    pub open spec fn token_issued(self, token: Seq<char>) -> bool {
        exists|i: int| 0 <= i < self.tokens@.len() && (#[trigger] self.tokens@[i]).0@ == token
    }

    /// No token is issued before the first login.
    pub fn new() -> (r: AuthGate)
        ensures
            r.tokens@.len() == 0,
    {
        AuthGate { tokens: Vec::new() }
    }

    /// Decides a login. A wrong password is refused outright; a right
    /// password from a device not yet authorized is refused without a
    /// token being issued; only a right password from an authorized
    /// device is granted a fresh token, remembered for that device.
    pub fn login(&mut self, config: &ServerConfig, password: &str, device_id: &str) -> (r:
        LoginOutcome)
        ensures
            !config.password_ok(password@) ==> r == LoginOutcome::WrongPassword && *final(self)
                == *old(self),
            config.password_ok(password@) && !config.device_listed(device_id@) ==> r
                == LoginOutcome::DeviceNotAuthorized && *final(self) == *old(self),
            config.password_ok(password@) && config.device_listed(device_id@) ==> match r {
                LoginOutcome::Granted(t) => {
                    &&& final(self).tokens@.len() == old(self).tokens@.len() + 1
                    &&& final(self).tokens@.subrange(0, old(self).tokens@.len() as int) == old(
                        self,
                    ).tokens@
                    &&& final(self).tokens@.last().0@ == t@
                    &&& final(self).tokens@.last().1@ == device_id@
                    &&& final(self).token_issued(t@)
                },
                _ => false,
            },
    {
        if !config.verify_password(password) {
            return LoginOutcome::WrongPassword;
        }
        if !config.is_device_authorized(device_id) {
            return LoginOutcome::DeviceNotAuthorized;
        }
        let token = fresh_uuid();
        let ghost prev = self.tokens@;
        self.tokens.push((token.clone(), device_id.to_owned()));
        proof {
            assert(self.tokens@.subrange(0, prev.len() as int) =~= prev);
            assert((self.tokens@[prev.len() as int]).0@ == token@);
        }
        LoginOutcome::Granted(token)
    }

    /// Looks a token up: the device it was issued to, or nothing for a
    /// token that was never issued.
    pub fn verify(&self, token: &str) -> (r: Option<String>)
        ensures
            match r {
                Some(d) => exists|i: int|
                    0 <= i < self.tokens@.len() && (#[trigger] self.tokens@[i]).0@ == token@
                        && self.tokens@[i].1@ == d@,
                None => !self.token_issued(token@),
            },
    {
        let mut i: usize = 0;
        while i < self.tokens.len()
            invariant
                i <= self.tokens@.len(),
                forall|j: int| 0 <= j < i ==> (#[trigger] self.tokens@[j]).0@ != token@,
            decreases self.tokens@.len() - i,
        {
            if eq_str(self.tokens[i].0.as_str(), token) {
                let d = self.tokens[i].1.clone();
                return Some(d);
            }
            i += 1;
        }
        None
    }
}

/// The HTTP answer to a login attempt: 200 with the fresh token, 401
/// for a wrong password, 403 for a device not yet authorized — which
/// carries no token.
pub fn login_response(outcome: LoginOutcome) -> (r: (u16, AuthResponse))
    ensures
        match outcome {
            LoginOutcome::Granted(t) => r.0 == 200 && r.1.success && r.1.message@
                == "Login successful"@ && (r.1.token matches Some(t2) && t2@ == t@),
            LoginOutcome::WrongPassword => r.0 == 401 && !r.1.success && r.1.message@
                == "Invalid password"@ && r.1.token is None,
            LoginOutcome::DeviceNotAuthorized => r.0 == 403 && !r.1.success && r.1.message@
                == "Device not authorized"@ && r.1.token is None,
        },
{
    match outcome {
        LoginOutcome::Granted(t) => (
            200,
            AuthResponse {
                success: true,
                message: String::from_str("Login successful"),
                token: Some(t),
            },
        ),
        LoginOutcome::WrongPassword => (
            401,
            AuthResponse {
                success: false,
                message: String::from_str("Invalid password"),
                token: None,
            },
        ),
        LoginOutcome::DeviceNotAuthorized => (
            403,
            AuthResponse {
                success: false,
                message: String::from_str("Device not authorized"),
                token: None,
            },
        ),
    }
}

/// Decides an authorize-device request: only the admin password admits
/// the device to the authorized set. The caller then persists the
/// configuration and reports through `authorize_response`.
pub fn authorize_device_checked(config: &mut ServerConfig, password: &str, device_id: String) -> (r:
    bool)
    requires
        old(config).wf(),
    ensures
        final(config).wf(),
        r == old(config).password_ok(password@),
        !r ==> *final(config) == *old(config),
        r ==> final(config).device_listed(device_id@),
        r ==> forall|id: Seq<char>|
            #[trigger] final(config).device_listed(id) == (old(config).device_listed(id) || id
                == device_id@),
        final(config).nickname == old(config).nickname,
        final(config).password_hash == old(config).password_hash,
        final(config).salt == old(config).salt,
    {
    if !config.verify_password(password) {
        return false;
    }
    config.authorize_device(device_id);
    true
}

/// The HTTP answer to an authorize-device request: 401 for a wrong
/// password; otherwise the device is in the set, and the answer says
/// whether the new configuration could be persisted — when it could
/// not, the authorization is not durable and the answer is an internal
/// error.
pub fn authorize_response(authorized: bool, saved: bool) -> (r: (u16, AuthResponse))
    ensures
        !authorized ==> r.0 == 401 && !r.1.success && r.1.message@ == "Invalid password"@,
        authorized && saved ==> r.0 == 200 && r.1.success && r.1.message@
            == "Device authorized"@,
        authorized && !saved ==> r.0 == 500 && !r.1.success && r.1.message@
            == "Failed to save configuration"@,
        r.1.token is None,
{
    if !authorized {
        (
            401,
            AuthResponse {
                success: false,
                message: String::from_str("Invalid password"),
                token: None,
            },
        )
    } else if saved {
        (
            200,
            AuthResponse {
                success: true,
                message: String::from_str("Device authorized"),
                token: None,
            },
        )
    } else {
        (
            500,
            AuthResponse {
                success: false,
                message: String::from_str("Failed to save configuration"),
                token: None,
            },
        )
    }
}

/// The HTTP answer to a token check: 200 for an issued token, 401
/// otherwise — one wording when no token came at all, another for an
/// unknown one.
pub fn verify_response(had_token: bool, valid: bool) -> (r: (u16, AuthResponse))
    ensures
        had_token && valid ==> r.0 == 200 && r.1.success && r.1.message@ == "Token is valid"@,
        had_token && !valid ==> r.0 == 401 && !r.1.success && r.1.message@ == "Invalid token"@,
        !had_token ==> r.0 == 401 && !r.1.success && r.1.message@ == "No token provided"@,
        r.1.token is None,
{
    if !had_token {
        (
            401,
            AuthResponse {
                success: false,
                message: String::from_str("No token provided"),
                token: None,
            },
        )
    } else if valid {
        (
            200,
            AuthResponse {
                success: true,
                message: String::from_str("Token is valid"),
                token: None,
            },
        )
    } else {
        (
            401,
            AuthResponse { success: false, message: String::from_str("Invalid token"), token: None },
        )
    }
}

} // verus!
