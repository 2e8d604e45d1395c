//! Runtime ceilings: the capabilities and permissions that each kind of plugin
//! runtime may ever declare.
use vstd::prelude::*;
use crate::text::str_eq;

verus! {

/// Why a plugin's declarations were refused.
#[derive(Debug, PartialEq, Eq)]
pub enum CeilingError {
    /// The runtime is neither `widget` nor `script`.
    UnknownRuntime,
    /// This declared capability is above the runtime's ceiling.
    CapabilityExceedsCeiling(String),
    /// This declared permission is above the runtime's ceiling.
    PermissionExceedsCeiling(String),
}

/// The runtimes that have ceilings.
pub open spec fn known_runtime(runtime: Seq<char>) -> bool {
    runtime == "widget"@ || runtime == "script"@
}

/// The capability ceiling: a widget may overlay the desktop, create windows and notify;
/// a script may create windows and notify.
pub open spec fn capability_allowed(runtime: Seq<char>, cap: Seq<char>) -> bool {
    if runtime == "widget"@ {
        cap == "widget:overlay"@ || cap == "window:create"@ || cap == "notification"@
    } else if runtime == "script"@ {
        cap == "window:create"@ || cap == "notification"@
    } else {
        false
    }
}

/// The permission ceiling: a widget may only use storage; a script may read and write
/// files, fetch from the network, use storage, open and save dialogs, read system info.
pub open spec fn permission_allowed(runtime: Seq<char>, perm: Seq<char>) -> bool {
    if runtime == "widget"@ {
        perm == "storage"@
    } else if runtime == "script"@ {
        perm == "fs:read"@ || perm == "fs:write"@ || perm == "network:fetch"@ || perm == "storage"@
            || perm == "dialog:open"@ || perm == "dialog:save"@ || perm == "system:info"@
    } else {
        false
    }
}

/// The ceilings, listed: a widget may declare exactly the capabilities
/// `widget:overlay`, `window:create` and `notification` and exactly the permission
/// `storage`; a script exactly the capabilities `window:create` and `notification` and
/// exactly the permissions `fs:read`, `fs:write`, `network:fetch`, `storage`,
/// `dialog:open`, `dialog:save` and `system:info`; any other runtime nothing. A script's
/// capabilities are among a widget's, and a widget's permissions among a script's.
pub proof fn lemma_ceilings()
    ensures
        forall|c: Seq<char>|
            #[trigger] capability_allowed("widget"@, c) <==> (c == "widget:overlay"@ || c == "window:create"@ || c
                == "notification"@),
        forall|c: Seq<char>|
            #[trigger] capability_allowed("script"@, c) <==> (c == "window:create"@ || c == "notification"@),
        forall|p: Seq<char>| #[trigger] permission_allowed("widget"@, p) <==> p == "storage"@,
        forall|p: Seq<char>|
            #[trigger] permission_allowed("script"@, p) <==> (p == "fs:read"@ || p == "fs:write"@ || p
                == "network:fetch"@ || p == "storage"@ || p == "dialog:open"@ || p == "dialog:save"@ || p
                == "system:info"@),
        forall|r: Seq<char>, c: Seq<char>|
            !known_runtime(r) ==> !#[trigger] capability_allowed(r, c) && !permission_allowed(r, c),
        forall|c: Seq<char>| #[trigger] capability_allowed("script"@, c) ==> capability_allowed("widget"@, c),
        forall|p: Seq<char>| #[trigger] permission_allowed("widget"@, p) ==> permission_allowed("script"@, p),
{
    reveal_strlit("widget");
    reveal_strlit("script");
    assert("widget"@[0] != "script"@[0]);
}

/// All declarations of a plugin are within its runtime's ceilings.
pub open spec fn within_ceilings(
    runtime: Seq<char>,
    caps: Seq<Seq<char>>,
    perms: Seq<Seq<char>>,
) -> bool {
    &&& known_runtime(runtime)
    &&& forall|i: int| 0 <= i < caps.len() ==> capability_allowed(runtime, #[trigger] caps[i])
    &&& forall|i: int| 0 <= i < perms.len() ==> permission_allowed(runtime, #[trigger] perms[i])
}

/// The texts of a list of strings.
pub open spec fn string_views(v: Seq<String>) -> Seq<Seq<char>> {
    v.map_values(|s: String| s@)
}

fn capability_allowed_exec(runtime: &str, cap: &str) -> (r: bool)
    ensures
        r == capability_allowed(runtime@, cap@),
{
    if str_eq(runtime, "widget") {
        str_eq(cap, "widget:overlay") || str_eq(cap, "window:create") || str_eq(cap, "notification")
    } else if str_eq(runtime, "script") {
        str_eq(cap, "window:create") || str_eq(cap, "notification")
    } else {
        false
    }
}

fn permission_allowed_exec(runtime: &str, perm: &str) -> (r: bool)
    ensures
        r == permission_allowed(runtime@, perm@),
{
    if str_eq(runtime, "widget") {
        str_eq(perm, "storage")
    } else if str_eq(runtime, "script") {
        str_eq(perm, "fs:read") || str_eq(perm, "fs:write") || str_eq(perm, "network:fetch")
            || str_eq(perm, "storage") || str_eq(perm, "dialog:open") || str_eq(perm, "dialog:save")
            || str_eq(perm, "system:info")
    } else {
        false
    }
}

/// Checks that a plugin's declared capabilities and permissions stay within the
/// ceilings of its runtime. Capabilities are checked before permissions, each in the
/// order declared; the first one above the ceiling is reported.
pub fn check_ceilings(runtime_type: &str, capabilities: &[String], permissions: &[String]) -> (r:
    Result<(), CeilingError>)
    ensures
        r is Ok <==> within_ceilings(
            runtime_type@,
            string_views(capabilities@),
            string_views(permissions@),
        ),
        r matches Err(CeilingError::UnknownRuntime) ==> !known_runtime(runtime_type@),
        r matches Err(CeilingError::CapabilityExceedsCeiling(c)) ==> known_runtime(runtime_type@)
            && exists|i: int|
            0 <= i < capabilities@.len() && #[trigger] capabilities@[i]@ == c@ && !capability_allowed(
                runtime_type@,
                c@,
            ) && forall|j: int|
                0 <= j < i ==> capability_allowed(runtime_type@, #[trigger] capabilities@[j]@),
        r matches Err(CeilingError::PermissionExceedsCeiling(p)) ==> known_runtime(runtime_type@)
            && (forall|j: int|
            0 <= j < capabilities@.len() ==> capability_allowed(
                runtime_type@,
                #[trigger] capabilities@[j]@,
            )) && exists|i: int|
            0 <= i < permissions@.len() && #[trigger] permissions@[i]@ == p@ && !permission_allowed(
                runtime_type@,
                p@,
            ) && forall|j: int|
                0 <= j < i ==> permission_allowed(runtime_type@, #[trigger] permissions@[j]@),
{
    if !str_eq(runtime_type, "widget") && !str_eq(runtime_type, "script") {
        return Err(CeilingError::UnknownRuntime);
    }
    let nc = capabilities.len();
    for i in 0..nc
        invariant
            nc == capabilities@.len(),
            known_runtime(runtime_type@),
            forall|j: int| 0 <= j < i ==> capability_allowed(runtime_type@, #[trigger] capabilities@[j]@),
    {
        if !capability_allowed_exec(runtime_type, capabilities[i].as_str()) {
            let c = capabilities[i].clone();
            proof {
                assert(string_views(capabilities@)[i as int] == capabilities@[i as int]@);
            }
            return Err(CeilingError::CapabilityExceedsCeiling(c));
        }
    }
    let np = permissions.len();
    for i in 0..np
        invariant
            np == permissions@.len(),
            nc == capabilities@.len(),
            known_runtime(runtime_type@),
            forall|j: int| 0 <= j < nc ==> capability_allowed(runtime_type@, #[trigger] capabilities@[j]@),
            forall|j: int| 0 <= j < i ==> permission_allowed(runtime_type@, #[trigger] permissions@[j]@),
    {
        if !permission_allowed_exec(runtime_type, permissions[i].as_str()) {
            let p = permissions[i].clone();
            proof {
                assert(string_views(permissions@)[i as int] == permissions@[i as int]@);
            }
            return Err(CeilingError::PermissionExceedsCeiling(p));
        }
    }
    proof {
        assert forall|i: int| 0 <= i < string_views(capabilities@).len() implies capability_allowed(
            runtime_type@,
            #[trigger] string_views(capabilities@)[i],
        ) by {
            assert(string_views(capabilities@)[i] == capabilities@[i]@);
        }
        assert forall|i: int| 0 <= i < string_views(permissions@).len() implies permission_allowed(
            runtime_type@,
            #[trigger] string_views(permissions@)[i],
        ) by {
            assert(string_views(permissions@)[i] == permissions@[i]@);
        }
    }
    Ok(())
}

/// A widget plugin can never be granted `fs:write`, whatever else it declares.
pub proof fn lemma_widget_never_writes_files(caps: Seq<Seq<char>>, perms: Seq<Seq<char>>)
    requires
        perms.contains("fs:write"@),
    ensures
        !within_ceilings("widget"@, caps, perms),
{
    reveal_strlit("fs:write");
    reveal_strlit("storage");
    let i = choose|i: int| 0 <= i < perms.len() && perms[i] == "fs:write"@;
    assert(perms[i][1] != "storage"@[1]);
    assert(!permission_allowed("widget"@, perms[i]));
}

} // verus!
