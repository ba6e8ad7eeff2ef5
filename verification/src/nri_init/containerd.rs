//! containerd's own configuration.

use toml_edit::DocumentMut;

use vstd::prelude::*;

use crate::nri_init::error::{NriError, NriErrorView};
use crate::nri_init::toml_util::{
    document_items, document_text, enabled, enabling_changes, ensure_nri_section, ensure_version2,
    item_of, parse_document, parsed_document, render_document, with_version, Items, Node, NRI_KEY,
};
use crate::text::concat;

verus! {

pub const DEFAULT_CONFIG_PATH: &'static str = "/etc/containerd/config.toml";

pub const DEFAULT_SOCKET_PATH: &'static str = "/var/run/nri/nri.sock";

/// A configuration that gives nothing but its version.
pub const MINIMAL_CONFIG: &'static str = "version = 2\n";

/// What is to be done with the configuration: whether it is to be made first, with the minimal
/// content; what is to be written then; and whether that changes anything.
#[derive(Debug)]
pub struct ContainerdPlan {
    pub create: bool,
    pub write: Option<String>,
    pub changed: bool,
}

/// The configuration that enables the plugin interface, from its items.
pub open spec fn configured(m: Items, socket_path: Seq<char>) -> Items {
    enabled(with_version(m), socket_path)
}

/// Whether a configuration is changed to enable the plugin interface.
pub open spec fn configuring_changes(m: Items, socket_path: Seq<char>) -> bool {
    item_of(m, "version"@) is None || enabling_changes(with_version(m), socket_path)
}

/// Whether a plan is right for a configuration with the given text.
pub open spec fn plans(
    plan: ContainerdPlan,
    content: Seq<char>,
    socket_path: Seq<char>,
    dry_run: bool,
) -> bool {
    match parsed_document(content) {
        Err(_) => false,
        Ok(m) => {
            &&& plan.changed == configuring_changes(m, socket_path)
            &&& plan.write is Some == (plan.changed && !dry_run)
            &&& plan.write is Some ==> exists|doc: DocumentMut|
                document_items(doc) == Some(configured(m, socket_path)) && plan.write.unwrap()@
                    == #[trigger] document_text(doc)
        },
    }
}

/// What is to be done with the configuration, given its text where it is there.
pub fn configure_containerd(existing: Option<&str>, socket_path: &str, dry_run: bool) -> (r: Result<
    ContainerdPlan,
    NriError,
>)
    ensures
        existing is None && dry_run ==> r is Ok && r->Ok_0.changed && !r->Ok_0.create
            && r->Ok_0.write is None,
        existing is Some || !dry_run ==> ({
            let content = match existing {
                Some(c) => c@,
                None => MINIMAL_CONFIG@,
            };
            match parsed_document(content) {
                Err(e) => r is Err && r->Err_0@ == NriErrorView::TomlMutation("parse error: "@ + e),
                Ok(_) => r is Ok && r->Ok_0.create == (existing is None) && plans(
                    r->Ok_0,
                    content,
                    socket_path@,
                    dry_run,
                ),
            }
        }),
{
    let content: &str = match existing {
        Some(c) => c,
        None => {
            if dry_run {
                return Ok(ContainerdPlan { create: false, write: None, changed: true });
            }
            MINIMAL_CONFIG
        },
    };
    let mut doc = match parse_document(content) {
        Ok(doc) => doc,
        Err(e) => {
            return Err(NriError::TomlMutation(concat("parse error: ", e.as_str())));
        },
    };
    let ghost m = document_items(doc).unwrap();
    let versioned: bool = ensure_version2(&mut doc);
    let enabled_now: bool = ensure_nri_section(&mut doc, socket_path);
    let changed: bool = versioned || enabled_now;
    assert(document_items(doc) == Some(configured(m, socket_path@)));
    let write = if changed && !dry_run {
        Some(render_document(&doc))
    } else {
        None
    };
    Ok(ContainerdPlan { create: existing.is_none(), write, changed })
}

/// A configuration that was made to enable the plugin interface is not changed again.
pub proof fn law_configuring_is_idempotent(m: Items, socket_path: Seq<char>)
    ensures
        !configuring_changes(configured(m, socket_path), socket_path),
        configured(configured(m, socket_path), socket_path) == configured(m, socket_path),
{
    crate::nri_init::toml_util::law_enabling_is_idempotent(with_version(m), socket_path);
    crate::nri_init::toml_util::law_version_is_idempotent(m);
    let once = configured(m, socket_path);
    let p = seq!["version"@];
    reveal_strlit("version");
    reveal_strlit("plugins");
    assert("version"@[0] == 'v');
    assert("plugins"@[0] == 'p');
    assert(p[0] == "version"@);
    crate::nri_init::toml_util::law_enabling_keeps_the_rest(with_version(m), socket_path, p);
    assert(item_of(once, "version"@) is Some);
    assert(with_version(once) == once);
}

/// Nothing but the version and the section is changed: what is at another key stays, whatever it
/// is, and where `plugins` is a table, so does what is below another of its keys.
pub proof fn law_configuring_keeps_the_rest(m: Items, socket_path: Seq<char>, p: Seq<Seq<char>>)
    requires
        p.len() > 0 && p[0] == "version"@ ==> item_of(m, "version"@) is Some,
        p.len() == 0 || p[0] != "plugins"@ || (item_of(m, "plugins"@) == Some(Node::Table) && (
        p.len() == 1 || p[1] != NRI_KEY@)),
    ensures
        configured(m, socket_path).dom().contains(p) == m.dom().contains(p),
        m.dom().contains(p) ==> configured(m, socket_path)[p] == m[p],
{
    reveal_strlit("version");
    reveal_strlit("plugins");
    assert("version"@[0] == 'v');
    assert("plugins"@[0] == 'p');
    assert(seq!["plugins"@][0] == "plugins"@);
    crate::nri_init::toml_util::law_version_is_idempotent(m);
    assert(item_of(with_version(m), "plugins"@) == item_of(m, "plugins"@));
    crate::nri_init::toml_util::law_enabling_keeps_the_rest(with_version(m), socket_path, p);
}

/// A configuration that was written, and that reads back as the items that it was written for, is
/// not changed by the next run.
pub proof fn law_written_configuration_stays(
    content: Seq<char>,
    written: Seq<char>,
    socket_path: Seq<char>,
    next: ContainerdPlan,
)
    requires
        parsed_document(content) is Ok,
        parsed_document(written) == Ok::<Items, Seq<char>>(
            configured(parsed_document(content)->Ok_0, socket_path),
        ),
        plans(next, written, socket_path, false),
    ensures
        !next.changed,
        next.write is None,
{
    law_configuring_is_idempotent(parsed_document(content)->Ok_0, socket_path);
}

}
