//! Reading one descriptor file into an [`AppInfo`].
use vstd::prelude::*;

use freedesktop_desktop_entry::DesktopEntry;

use crate::model::AppInfo;

verus! {

/// The fields of a decoded descriptor that the library reads.
pub struct DescriptorFields {
    pub name: Option<String>,
    pub command: Option<String>,
    pub icon: Option<String>,
    pub terminal: bool,
    pub no_display: bool,
    pub hidden: bool,
}

/// An optional string as an optional character sequence.
pub open spec fn opt_view(o: Option<String>) -> Option<Seq<char>> {
    match o {
        Some(s) => Some(s@),
        None => None,
    }
}

/// Name, command, icon, terminal, no-display and hidden, as plain values.
pub type FieldsView = (Option<Seq<char>>, Option<Seq<char>>, Option<Seq<char>>, bool, bool, bool);

pub open spec fn fields_view(f: DescriptorFields) -> FieldsView {
    (opt_view(f.name), opt_view(f.command), opt_view(f.icon), f.terminal, f.no_display, f.hidden)
}

/// What the desktop-entry decoder reads out of the descriptor text `text` at `path`:
/// `None` where it reports an error.
pub uninterp spec fn descriptor_fields_of(path: Seq<char>, text: Seq<char>) -> Option<FieldsView>;

/// Relies on `DesktopEntry::from_str` (no locale preferred) and on the entry's `name`,
/// `exec`, `icon`, `terminal`, `no_display` and `hidden`: built without gettext, the
/// decoded fields depend on the path and the text alone.
#[verifier::external_body]
fn decode_fields(path: &str, text: &str) -> (r: Option<DescriptorFields>)
    ensures
        match r {
            Some(f) => descriptor_fields_of(path@, text@) == Some(fields_view(f)),
            None => descriptor_fields_of(path@, text@) is None,
        },
{
    let locales: &[&str] = &[];
    let entry = DesktopEntry::from_str(path, text, Some(locales)).ok()?;
    Some(DescriptorFields {
        name: entry.name(locales).map(|n| n.into_owned()),
        command: entry.exec().map(|s| s.to_owned()),
        icon: entry.icon().map(|s| s.to_owned()),
        terminal: entry.terminal(),
        no_display: entry.no_display(),
        hidden: entry.hidden(),
    })
}

/// A record as plain values: path, name, command template, icon, terminal flag.
pub type AppView = (Seq<char>, Seq<char>, Seq<char>, Option<Seq<char>>, bool);

pub open spec fn app_view(app: AppInfo) -> AppView {
    (app.path@, app.name@, app.exec_template@, opt_view(app.icon), app.terminal)
}

pub open spec fn seq_filled(o: Option<Seq<char>>) -> bool {
    o matches Some(s) && s.len() > 0
}

/// The record that direct lookup gives for the descriptor text `text` at `path`: one
/// exactly when it decodes and has a non-empty name and command.
pub open spec fn find_app_spec(path: Seq<char>, text: Seq<char>) -> Option<AppView> {
    match descriptor_fields_of(path, text) {
        Some(f) => if seq_filled(f.0) && seq_filled(f.1) {
            Some((path, f.0->0, f.1->0, f.2, f.3))
        } else {
            None
        },
        None => None,
    }
}

/// The record that the catalog lists for that descriptor: as direct lookup, but none for
/// a descriptor marked hidden or not to be displayed.
pub open spec fn catalog_entry_spec(path: Seq<char>, text: Seq<char>) -> Option<AppView> {
    match descriptor_fields_of(path, text) {
        Some(f) => if f.4 || f.5 {
            None
        } else {
            find_app_spec(path, text)
        },
        None => None,
    }
}

pub open spec fn opt_app_view(o: Option<AppInfo>) -> Option<AppView> {
    match o {
        Some(a) => Some(app_view(a)),
        None => None,
    }
}

/// True of an optional field that is present and not empty.
pub open spec fn is_filled(field: Option<String>) -> bool {
    field matches Some(v) && v@.len() > 0
}

/// True of a record that carries a display name and a command template.
pub open spec fn is_complete(app: AppInfo) -> bool {
    app.name@.len() > 0 && app.exec_template@.len() > 0
}

/// Builds the record for the descriptor at `path` from the fields read out of it.
/// There is a record exactly when both the name and the template are present and not
/// empty; it then holds the given fields unchanged.
pub fn record_from_fields(
    path: &str,
    name: Option<String>,
    exec: Option<String>,
    icon: Option<String>,
    terminal: bool,
) -> (r: Option<AppInfo>)
    ensures
        r is Some <==> is_filled(name) && is_filled(exec),
        r matches Some(app) ==> {
            &&& app.path@ == path@
            &&& app.name@ == name->0@
            &&& app.exec_template@ == exec->0@
            &&& app.icon == icon
            &&& app.terminal == terminal
            &&& is_complete(app)
        },
{
    match (name, exec) {
        (Some(n), Some(e)) => {
            if n.as_str().unicode_len() == 0 || e.as_str().unicode_len() == 0 {
                None
            } else {
                Some(AppInfo { path: String::from_str(path), name: n, exec_template: e, icon, terminal })
            }
        },
        _ => None,
    }
}

/// Reads the descriptor at `path`, whose text is `text`, into a record, whether or not
/// it is marked hidden. A descriptor that cannot be decoded, or lacks a name or a
/// command, gives `None`.
pub fn find_app(path: &str, text: &str) -> (r: Option<AppInfo>)
    ensures
        opt_app_view(r) == find_app_spec(path@, text@),
        r matches Some(app) ==> is_complete(app),
{
    match decode_fields(path, text) {
        Some(f) => {
            let r = record_from_fields(path, f.name, f.command, f.icon, f.terminal);
            r
        },
        None => None,
    }
}

/// The decision of the catalog on one descriptor: a record that is marked hidden or
/// not to be displayed is left out, any other is kept as it is.
pub fn listed_record(record: Option<AppInfo>, no_display: bool, hidden: bool) -> (r: Option<
    AppInfo,
>)
    ensures
        no_display || hidden ==> r is None,
        !(no_display || hidden) ==> r == record,
{
    if no_display || hidden {
        None
    } else {
        record
    }
}

/// Reads the descriptor at `path` as the catalog sees it: like [`find_app`], but a
/// descriptor marked hidden or not to be displayed gives `None`.
pub fn catalog_entry(path: &str, text: &str) -> (r: Option<AppInfo>)
    ensures
        opt_app_view(r) == catalog_entry_spec(path@, text@),
        r matches Some(app) ==> is_complete(app),
{
    match decode_fields(path, text) {
        Some(f) => {
            let record = record_from_fields(path, f.name, f.command, f.icon, f.terminal);
            listed_record(record, f.no_display, f.hidden)
        },
        None => None,
    }
}

} // verus!
