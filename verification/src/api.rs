//! The rules of the onboarding interface: how its failures are answered,
//! how a caller proves who they are, and who may do what to a folder.

use vstd::prelude::*;
use crate::broker::protocol::{Computer, ComputerView, SyncFolder, SyncFolderView, User, UserView};
use crate::broker::topology::{origin_apart, synced_iff_idle};
use crate::synchronizer::{OptionsView, SyncOptions};
use crate::text::{from_chars, same_text, to_chars, view_all};

verus! {

/// A failure of the onboarding interface.
#[derive(Debug)]
pub enum ApiError {
    AuthenticationFailed(String),
    UserNotFound,
    PermissionDenied(String),
    NotFound(String),
    InvalidRequest(String),
    Conflict(String),
    /// Something went wrong inside; holds what, for the log only.
    InternalError(String),
    /// The store failed; holds how, for the log only.
    DatabaseError(String),
}

/// What a request to register carries.
#[derive(Debug)]
pub struct RegisterUserRequest {
    pub name: String,
    pub password: String,
}

/// What a request to log in carries.
#[derive(Debug)]
pub struct LoginRequest {
    pub name: String,
    pub password: String,
}

/// The answer to a login.
#[derive(Debug)]
pub struct AuthResponse {
    pub token: String,
    pub user_id: String,
}

/// What a request to create a folder carries.
#[derive(Debug)]
pub struct CreateFolderRequest {
    pub name: String,
    pub computer_id: String,
}

/// What a request to join or leave a folder carries.
#[derive(Debug)]
pub struct JoinFolderRequest {
    pub computer_id: String,
}

/// What a request to register a computer carries.
#[derive(Debug)]
pub struct CreateComputerRequest {
    pub name: String,
}

/// What a token says: whose it is and when it ends, in seconds since the
/// Unix epoch.
#[derive(Debug, Clone)]
pub struct Claims {
    pub sub: String,
    pub exp: usize,
}

/// How long a token is good for: a day, in seconds.
pub const TOKEN_LIFETIME: usize = 3600 * 24;

/// The status code of the answer to a failure.
pub open spec fn status_of(e: ApiError) -> u16 {
    match e {
        ApiError::AuthenticationFailed(_) => 401,
        ApiError::UserNotFound => 401,
        ApiError::PermissionDenied(_) => 403,
        ApiError::NotFound(_) => 404,
        ApiError::InvalidRequest(_) => 400,
        ApiError::Conflict(_) => 409,
        ApiError::InternalError(_) => 500,
        ApiError::DatabaseError(_) => 500,
    }
}

/// The text of the answer to a failure. What went wrong inside is not
/// told.
pub open spec fn message_of(e: ApiError) -> Seq<char> {
    match e {
        ApiError::AuthenticationFailed(text) => text@,
        ApiError::UserNotFound => "User not found"@,
        ApiError::PermissionDenied(text) => text@,
        ApiError::NotFound(text) => text@,
        ApiError::InvalidRequest(text) => text@,
        ApiError::Conflict(text) => text@,
        ApiError::InternalError(_) => "Internal server error"@,
        ApiError::DatabaseError(_) => "Database error"@,
    }
}

/// The scheme that a caller's credentials start with.
pub open spec fn bearer_prefix() -> Seq<char> {
    seq!['B', 'e', 'a', 'r', 'e', 'r', ' ']
}

impl ApiError {
    /// The status code and the text of the answer to the failure.
    pub fn into_response(self) -> (r: (u16, String))
        ensures
            r.0 == status_of(self),
            r.1@ == message_of(self),
    {
        match self {
            ApiError::AuthenticationFailed(text) => (401, text),
            ApiError::UserNotFound => (401, "User not found".to_owned()),
            ApiError::PermissionDenied(text) => (403, text),
            ApiError::NotFound(text) => (404, text),
            ApiError::InvalidRequest(text) => (400, text),
            ApiError::Conflict(text) => (409, text),
            ApiError::InternalError(_) => (500, "Internal server error".to_owned()),
            ApiError::DatabaseError(_) => (500, "Database error".to_owned()),
        }
    }
}

/// The token of a request, from its authorization header: what follows
/// `Bearer `. A request without the header, or with another scheme, is
/// refused.
pub fn auth_middleware(auth_header: Option<&str>) -> (r: Result<String, ApiError>)
    ensures
        match r {
            Ok(token) => auth_header matches Some(header) && bearer_prefix().is_prefix_of(header@)
                && token@ == header@.skip(7),
            Err(e) => (e matches ApiError::AuthenticationFailed(text) && (match auth_header {
                None => text@ == "Missing authorization header"@,
                Some(header) => !bearer_prefix().is_prefix_of(header@) && text@
                    == "Invalid authorization header format"@,
            })),
        },
{
    let header = match auth_header {
        Some(header) => header,
        None => {
            return Err(
                ApiError::AuthenticationFailed("Missing authorization header".to_owned()),
            );
        },
    };
    let chars = to_chars(header);
    let starts = chars.len() >= 7 && chars[0] == 'B' && chars[1] == 'e' && chars[2] == 'a'
        && chars[3] == 'r' && chars[4] == 'e' && chars[5] == 'r' && chars[6] == ' ';
    proof {
        if starts {
            assert(chars@.subrange(0, 7) =~= bearer_prefix());
        } else if bearer_prefix().is_prefix_of(chars@) {
            assert(chars@.subrange(0, 7) == bearer_prefix());
            assert(chars@[0] == chars@.subrange(0, 7)[0]);
            assert(chars@[1] == chars@.subrange(0, 7)[1]);
            assert(chars@[2] == chars@.subrange(0, 7)[2]);
            assert(chars@[3] == chars@.subrange(0, 7)[3]);
            assert(chars@[4] == chars@.subrange(0, 7)[4]);
            assert(chars@[5] == chars@.subrange(0, 7)[5]);
            assert(chars@[6] == chars@.subrange(0, 7)[6]);
        }
    }
    if !starts {
        return Err(
            ApiError::AuthenticationFailed("Invalid authorization header format".to_owned()),
        );
    }
    let mut token: Vec<char> = Vec::new();
    let mut i: usize = 7;
    proof {
        assert(chars@.subrange(7, 7) =~= Seq::<char>::empty());
    }
    while i < chars.len()
        invariant
            7 <= i <= chars.len(),
            token@ == chars@.subrange(7, i as int),
        decreases chars.len() - i,
    {
        token.push(chars[i]);
        proof {
            assert(chars@.subrange(7, i as int).push(chars@[i as int]) =~= chars@.subrange(
                7,
                i + 1,
            ));
        }
        i += 1;
    }
    proof {
        assert(chars@.subrange(7, chars.len() as int) =~= chars@.skip(7));
    }
    Ok(from_chars(&token))
}

/// What a login answers with, given what the store holds under the name
/// (the user's id, if there is such a user) and whether the password was
/// accepted against the stored hash. A user that is not there and a
/// password that is refused are told apart; else the claims of the token
/// are the user's id and an end a day from now, as far as that day fits
/// the machine's numbers.
pub fn login(found: Option<String>, password_accepted: bool, now_seconds: u64) -> (r: Result<
    Claims,
    ApiError,
>)
    ensures
        match found {
            None => r matches Err(ApiError::AuthenticationFailed(text)) && text@
                == "User not found"@,
            Some(id) => if !password_accepted {
                r matches Err(ApiError::AuthenticationFailed(text)) && text@
                    == "Invalid credentials"@
            } else if now_seconds + TOKEN_LIFETIME > usize::MAX {
                r matches Err(e) && e is InternalError
            } else {
                r matches Ok(claims) && claims.sub@ == id@ && claims.exp == now_seconds
                    + TOKEN_LIFETIME
            },
        },
{
    match found {
        None => Err(ApiError::AuthenticationFailed("User not found".to_owned())),
        Some(user_id) => {
            if !password_accepted {
                return Err(ApiError::AuthenticationFailed("Invalid credentials".to_owned()));
            }
            if now_seconds > (usize::MAX - TOKEN_LIFETIME) as u64 {
                return Err(ApiError::InternalError("System time is out of range".to_owned()));
            }
            Ok(Claims { sub: user_id, exp: now_seconds as usize + TOKEN_LIFETIME })
        },
    }
}

/// Whether the caller may act for a computer: the store must know the
/// computer as the user's.
pub fn computer_belongs_to_user(found: bool) -> (r: Result<(), ApiError>)
    ensures
        r is Ok <==> found,
        r matches Err(e) ==> e matches ApiError::PermissionDenied(text) && text@
            == "Computer does not belong to user"@,
{
    if found {
        Ok(())
    } else {
        Err(ApiError::PermissionDenied("Computer does not belong to user".to_owned()))
    }
}

/// Whether the user may join a folder: the folder must be there and its
/// origin must be one of the user's computers.
pub fn join_folder(folder_owner: Option<&str>, user_id: &str) -> (r: Result<(), ApiError>)
    ensures
        r is Ok <==> (folder_owner matches Some(owner) && owner@ == user_id@),
        r matches Err(e) ==> e matches ApiError::NotFound(text) && text@
            == "Folder not found or access denied"@,
{
    let allowed = match folder_owner {
        Some(owner) => same_text(owner, user_id),
        None => false,
    };
    if allowed {
        Ok(())
    } else {
        Err(ApiError::NotFound("Folder not found or access denied".to_owned()))
    }
}

/// What a computer is told that has asked to join a folder.
pub fn join_message(already_joined: bool) -> (r: String)
    ensures
        r@ == (if already_joined {
            "Already joined"@
        } else {
            "Joined folder"@
        }),
{
    if already_joined {
        "Already joined".to_owned()
    } else {
        "Joined folder".to_owned()
    }
}

/// The folder that the store records when a computer creates one: the
/// computer is its origin, it has no backups, and with nothing pending it
/// counts as synced.
pub fn create_folder(folder_id: String, name: &str, computer_id: &str) -> (r: SyncFolder)
    ensures
        r@ == (SyncFolderView {
            id: folder_id@,
            name: name@,
            origin_computer: computer_id@,
            backup_computers: Seq::<Seq<char>>::empty(),
            is_synced: true,
            pending_operations: 0,
        }),
        origin_apart(r@),
        synced_iff_idle(r@),
{
    let r = SyncFolder {
        id: folder_id,
        name: name.to_owned(),
        origin_computer: computer_id.to_owned(),
        backup_computers: Vec::new(),
        is_synced: true,
        pending_operations: 0,
    };
    proof {
        assert(r@.backup_computers =~= Seq::<Seq<char>>::empty());
    }
    r
}

/// The computer that the store records when a user registers one: it is
/// online.
pub fn register_computer(computer_id: String, name: &str) -> (r: Computer)
    ensures
        r@ == (ComputerView { id: computer_id@, name: name@, online: true }),
{
    Computer { id: computer_id, name: name.to_owned(), online: true }
}

/// The state of a user as the store holds it; fails where the store does
/// not know the user.
pub fn get_user_state(
    user_id: &str,
    user_name: Option<String>,
    computers: Vec<Computer>,
    sync_folders: Vec<SyncFolder>,
) -> (r: Result<User, ApiError>)
    ensures
        match r {
            Ok(user) => user_name matches Some(name) && user@ == (UserView {
                id: user_id@,
                name: name@,
                computers: view_all(computers@),
                sync_folders: view_all(sync_folders@),
            }),
            Err(e) => user_name is None && e is UserNotFound,
        },
{
    match user_name {
        None => Err(ApiError::UserNotFound),
        Some(name) => Ok(User { id: user_id.to_owned(), name, computers, sync_folders }),
    }
}

/// The arguments of the mirror program.
#[derive(Debug)]
pub struct Cli {
    pub source_local: Option<String>,
    pub backup_local: Option<String>,
    pub when_missing_preserve_backup: bool,
    pub when_conflict_preserve_backup: bool,
    pub when_delete_keep_backup: bool,
}

impl Cli {
    /// The options of the mirror that the arguments ask for.
    pub fn sync_options(&self) -> (r: SyncOptions)
        ensures
            r@ == (OptionsView {
                when_missing_preserve_backup: self.when_missing_preserve_backup,
                when_conflict_preserve_backup: self.when_conflict_preserve_backup,
                when_delete_keep_backup: self.when_delete_keep_backup,
            }),
    {
        SyncOptions::default().with_when_delete_keep_backup(
            self.when_delete_keep_backup,
        ).with_when_conflict_preserve_backup(
            self.when_conflict_preserve_backup,
        ).with_when_missing_preserve_backup(self.when_missing_preserve_backup)
    }

    /// The two directories to mirror, where both are given.
    pub fn local_pair(&self) -> (r: Option<(&str, &str)>)
        ensures
            match r {
                Some((source, backup)) => self.source_local matches Some(s) && s@ == source@
                    && (self.backup_local matches Some(b) && b@ == backup@),
                None => self.source_local is None || self.backup_local is None,
            },
    {
        match (&self.source_local, &self.backup_local) {
            (Some(source), Some(backup)) => Some((source.as_str(), backup.as_str())),
            _ => None,
        }
    }
}

} // verus!
