//! Request and response bodies of the server API, as the SDK sends and
//! receives them.

use vstd::prelude::*;

verus! {

#[derive(Debug)]
pub enum MessagePayload<T> {
    Error(Vec<T>),
    Data(T),
}

#[derive(Debug)]
pub struct Pagination {
    pub total_items: u64,
    pub total_pages: u64,
    pub current_page: u64,
    pub page_size: u64,
    pub next_page_url: String,
    pub prev_page_url: String,
}

#[derive(Debug)]
pub enum UserLoginIdent {
    Username(String),
    Email(String),
}

#[derive(Debug)]
pub struct UserLogin {
    pub ident: UserLoginIdent,
    pub password: String,
}

#[derive(Debug)]
pub struct SystemInfo {
    pub os: String,
    pub name: String,
    pub version: String,
    pub author: String,
    pub is_first_boot: bool,
}

#[derive(Debug)]
pub struct UserSignUp {
    pub username: String,
    pub password: String,
    pub confirm_password: String,
    pub nickname: Option<String>,
    pub email: Option<String>,
}

#[derive(Debug)]
pub struct UserResp {
    pub uid: u64,
    pub username: String,
    pub email: Option<String>,
}

#[derive(Debug)]
pub struct LibraryType {
    pub tid: u64,
    pub scan_mode: Option<String>,
    pub label: String,
}

#[derive(Debug)]
pub struct LibrariesRelatedTags {
    pub lrtid: u64,
    pub lid: u64,
    pub tid: u64,
}

#[derive(Debug)]
pub struct LibraryPath {
    pub lpid: u64,
    pub lid: u64,
    pub path: String,
}

#[derive(Debug)]
pub struct LibraryAdd {
    pub name: String,
    pub description: Option<String>,
    pub library_type: u64,
    pub tags: Vec<u64>,
    pub library_paths: Vec<String>,
}

#[derive(Debug)]
pub struct LibraryModify {
    pub name: Option<String>,
    pub description: Option<String>,
}

#[derive(Debug)]
pub struct LibraryDeleteRequest {
    pub lid: u64,
}

#[derive(Debug)]
pub struct TagAddRequest {
    pub label: String,
    pub tgid: u64,
}

#[derive(Debug)]
pub struct TagGroupAddRequest {
    pub label: String,
}

#[derive(Debug)]
pub struct TagGroupDeleteRequest {
    pub tgid: u64,
}

#[derive(Debug)]
pub struct TagGroupQueryRequest {
    pub tgid: Option<u64>,
    pub sort: Option<String>,
    pub page: Option<u64>,
    pub page_size: u64,
}

#[derive(Debug)]
pub struct ResourceAddRequest {
    pub name: String,
    pub lid: u64,
    pub description: Option<String>,
}

#[derive(Debug)]
pub struct ResourceModifyRequest {
    pub name: Option<String>,
    pub description: Option<String>,
}

#[derive(Debug)]
pub struct ResourceDeleteRequest {
    pub rid: u64,
}

#[derive(Debug)]
pub struct Role {
    pub rid: u64,
    pub name: String,
    pub description: Option<String>,
}

#[derive(Debug)]
pub struct RoleAddRequest {
    pub name: String,
    pub description: Option<String>,
}

#[derive(Debug)]
pub struct Permission {
    pub pid: u64,
    pub name: String,
    pub description: Option<String>,
}

#[derive(Debug)]
pub struct PermissionAddRequest {
    pub name: String,
    pub description: Option<String>,
}

#[derive(Debug)]
pub struct RoleLinkPermissionAddRequest {
    pub rid: u64,
    pub pid: u64,
}

#[derive(Debug)]
pub struct UserRoleAddRequest {
    pub uid: u64,
    pub rid: u64,
}

#[derive(Debug)]
pub struct InitializeConfig {
    pub admin_password: String,
    pub admin_confirm_password: String,
}

#[derive(Debug)]
pub struct InitStatus {
    pub initialized: bool,
}

#[derive(Debug)]
pub struct InstallPlugin {
    pub url: Option<String>,
}

#[derive(Debug)]
pub struct ScannerTaskAddRequest {
    pub lid: Option<u64>,
    pub full_scan: Option<bool>,
}

#[derive(Debug)]
pub struct ScannerStatus {
    pub scanning: bool,
    pub current_lid: Option<u64>,
}

#[derive(Debug)]
pub struct ScannerInfo {
    pub available: bool,
    pub version: Option<String>,
}

#[derive(Debug)]
pub struct MetadataQueryRequest {
    pub root_node: u64,
    pub depth: usize,
}

#[derive(Debug)]
pub struct PushResponse {
    pub pmid: u64,
    pub uploaded_size: u64,
}

#[derive(Debug)]
pub struct UserQueryRequest {
    pub status: Option<String>,
    pub role: Option<String>,
    pub search: Option<String>,
    pub sort: Option<String>,
    pub page: Option<u64>,
    pub page_size: u64,
}

#[derive(Debug)]
pub struct TagQueryRequest {
    pub tid: Option<u64>,
    pub sort: Option<String>,
    pub page: Option<u64>,
    pub page_size: u64,
}

#[derive(Debug)]
pub struct ResourceQueryRequest {
    pub lid: u64,
    pub sort: Option<String>,
    pub page: Option<u64>,
    pub page_size: u64,
}

#[derive(Debug)]
pub struct LibraryQueryRequest {
    pub sort: Option<String>,
    pub page: Option<u64>,
    pub page_size: u64,
}

#[derive(Debug)]
pub struct SearchRequest {
    pub keyword: String,
    pub tags: Option<Vec<String>>,
    pub lid: Option<u64>,
    pub before_create_datetime: Option<String>,
    pub after_create_datetime: Option<String>,
    pub before_last_update_datetime: Option<String>,
    pub after_last_update_datetime: Option<String>,
    pub sort: Option<String>,
    pub page: Option<u64>,
    pub page_size: u64,
}

impl Clone for UserLoginIdent {
    fn clone(&self) -> (r: Self)
        ensures
            match (*self, r) {
                (UserLoginIdent::Username(a), UserLoginIdent::Username(b)) => a@ == b@,
                (UserLoginIdent::Email(a), UserLoginIdent::Email(b)) => a@ == b@,
                _ => false,
            },
    {
        match self {
            UserLoginIdent::Username(s) => UserLoginIdent::Username(s.clone()),
            UserLoginIdent::Email(s) => UserLoginIdent::Email(s.clone()),
        }
    }
}

} // verus!
