//! The Salesforce metadata types that the tool knows: the file extension
//! of each, its metadata type name, its category and whether the order of
//! its elements matters.
use vstd::prelude::*;
use crate::strings::{ends_with, ends_with_exec, push_str, str_eq, to_owned_string};
use crate::assoc::{afind, aget, ahas, keys_distinct, lemma_afind_first, lemma_afind_none, lemma_afind_range};

verus! {

/// One known metadata type.
pub struct MetadataTypeDef {
    pub extension: &'static str,
    pub meta_type: &'static str,
    pub category: &'static str,
    pub order_sensitive: bool,
}

/// Mathematical model of a `MetadataTypeDef`.
pub ghost struct TypeRow {
    pub ext: Seq<char>,
    pub ty: Seq<char>,
    pub cat: Seq<char>,
    pub ordered: bool,
}

impl MetadataTypeDef {
    pub open spec fn view(&self) -> TypeRow {
        TypeRow { ext: self.extension@, ty: self.meta_type@, cat: self.category@, ordered: self.order_sensitive }
    }
}

pub open spec fn row(ext: Seq<char>, ty: Seq<char>, cat: Seq<char>, ordered: bool) -> TypeRow {
    TypeRow { ext, ty, cat, ordered }
}

/// The table of known metadata types, in the order in which they are listed.
pub open spec fn type_table() -> Seq<TypeRow> {
    seq![
        row("profile-meta.xml"@, "Profile"@, "security"@, false),
        row("permissionset-meta.xml"@, "PermissionSet"@, "security"@, false),
        row("permissionsetgroup-meta.xml"@, "PermissionSetGroup"@, "security"@, false),
        row("object-meta.xml"@, "CustomObject"@, "schema"@, false),
        row("field-meta.xml"@, "CustomField"@, "schema"@, false),
        row("validationRule-meta.xml"@, "ValidationRule"@, "schema"@, false),
        row("flow-meta.xml"@, "Flow"@, "automation"@, true),
        row("layout-meta.xml"@, "Layout"@, "ui"@, true),
        row("labels-meta.xml"@, "CustomLabels"@, "ui"@, false),
        row("cls-meta.xml"@, "ApexClass"@, "code"@, false),
        row("trigger-meta.xml"@, "ApexTrigger"@, "code"@, false),
        row("component-meta.xml"@, "ApexComponent"@, "code"@, false),
        row("page-meta.xml"@, "ApexPage"@, "code"@, false),
        row("js-meta.xml"@, "LightningComponentBundle"@, "code"@, false),
        row("css-meta.xml"@, "LightningComponentBundle"@, "code"@, false),
        row("html-meta.xml"@, "LightningComponentBundle"@, "code"@, false),
        row("xml-meta.xml"@, "LightningComponentBundle"@, "code"@, false),
        row("email-meta.xml"@, "EmailTemplate"@, "content"@, false),
        row("workflow-meta.xml"@, "Workflow"@, "automation"@, false),
        row("app-meta.xml"@, "CustomApplication"@, "ui"@, false),
        row("tab-meta.xml"@, "CustomTab"@, "ui"@, false),
        row("flexipage-meta.xml"@, "FlexiPage"@, "ui"@, true),
        row("site-meta.xml"@, "CustomSite"@, "ui"@, false),
        row("remoteSite-meta.xml"@, "RemoteSiteSetting"@, "security"@, false),
        row("cspTrustedSite-meta.xml"@, "CspTrustedSite"@, "security"@, false),
        row("connectedApp-meta.xml"@, "ConnectedApp"@, "security"@, false),
        row("customMetadata-meta.xml"@, "CustomMetadata"@, "schema"@, false),
        row("globalValueSet-meta.xml"@, "GlobalValueSet"@, "schema"@, false),
        row("standardValueSet-meta.xml"@, "StandardValueSet"@, "schema"@, false),
        row("quickAction-meta.xml"@, "QuickAction"@, "ui"@, false),
        row("reportType-meta.xml"@, "ReportType"@, "analytics"@, false),
        row("report-meta.xml"@, "Report"@, "analytics"@, false),
        row("dashboard-meta.xml"@, "Dashboard"@, "analytics"@, false),
        row("pathAssistant-meta.xml"@, "PathAssistant"@, "ui"@, false),
        row("listView-meta.xml"@, "ListView"@, "ui"@, false),
        row("recordType-meta.xml"@, "RecordType"@, "schema"@, false),
        row("compactLayout-meta.xml"@, "CompactLayout"@, "ui"@, false),
        row("webLink-meta.xml"@, "WebLink"@, "ui"@, false),
        row("sharingRules-meta.xml"@, "SharingRules"@, "security"@, false),
        row("assignmentRules-meta.xml"@, "AssignmentRules"@, "automation"@, false),
        row("autoResponseRules-meta.xml"@, "AutoResponseRules"@, "automation"@, false),
        row("escalationRules-meta.xml"@, "EscalationRules"@, "automation"@, false),
        row("matchingRule-meta.xml"@, "MatchingRule"@, "schema"@, false),
        row("duplicateRule-meta.xml"@, "DuplicateRule"@, "schema"@, false),
        row("customPermission-meta.xml"@, "CustomPermission"@, "security"@, false),
        row("role-meta.xml"@, "Role"@, "security"@, false),
        row("group-meta.xml"@, "Group"@, "security"@, false),
        row("authprovider-meta.xml"@, "AuthProvider"@, "security"@, false),
        row("samlssoconfig-meta.xml"@, "SamlSsoConfig"@, "security"@, false),
        row("crt-meta.xml"@, "Certificate"@, "security"@, false),
        row("md-meta.xml"@, "CustomMetadata"@, "schema"@, false),
        row("indx-meta.xml"@, "CustomIndex"@, "schema"@, false),
        row("fieldSet-meta.xml"@, "FieldSet"@, "schema"@, false),
        row("cmp-meta.xml"@, "AuraDefinitionBundle"@, "code"@, false),
        row("evt-meta.xml"@, "AuraDefinitionBundle"@, "code"@, false),
        row("resource-meta.xml"@, "StaticResource"@, "code"@, false),
        row("workflowRule-meta.xml"@, "WorkflowRule"@, "automation"@, false),
        row("homePageLayout-meta.xml"@, "HomePageLayout"@, "ui"@, false),
        row("appMenu-meta.xml"@, "AppMenu"@, "ui"@, false),
        row("community-meta.xml"@, "Community"@, "ui"@, false),
        row("letter-meta.xml"@, "Letterhead"@, "ui"@, false),
        row("externalServiceRegistration-meta.xml"@, "ExternalServiceRegistration"@, "integration"@, false),
        row("namedCredential-meta.xml"@, "NamedCredential"@, "integration"@, false),
        row("externalCredential-meta.xml"@, "ExternalCredential"@, "integration"@, false),
        row("settings-meta.xml"@, "Settings"@, "config"@, false),
        row("installedPackage-meta.xml"@, "InstalledPackage"@, "config"@, false),
        row("topicsForObjects-meta.xml"@, "TopicsForObjects"@, "config"@, false),
        row("notiftype-meta.xml"@, "CustomNotificationType"@, "config"@, false),
        row("cleanDataService-meta.xml"@, "CleanDataService"@, "config"@, false),
        row("config-meta.xml"@, "NotificationTypeConfig"@, "config"@, false),
        row("platformEventChannelMember-meta.xml"@, "PlatformEventChannelMember"@, "config"@, false),
        row("objectTranslation-meta.xml"@, "CustomObjectTranslation"@, "translation"@, false),
        row("fieldTranslation-meta.xml"@, "CustomFieldTranslation"@, "translation"@, false),
        row("managedContentType-meta.xml"@, "ManagedContentType"@, "content"@, false),
        row("iframeWhiteListUrlSettings-meta.xml"@, "IframeWhiteListUrlSettings"@, "content"@, false),
        row("messageChannel-meta.xml"@, "LightningMessageChannel"@, "content"@, false),
    ]
}

/// The models of a sequence of definitions.
pub open spec fn rows_view(ds: Seq<MetadataTypeDef>) -> Seq<TypeRow> {
    Seq::new(ds.len(), |i: int| ds[i].view())
}

fn def(extension: &'static str, meta_type: &'static str, category: &'static str, order_sensitive: bool) -> (r: MetadataTypeDef)
    ensures
        r.view() == row(extension@, meta_type@, category@, order_sensitive),
{
    MetadataTypeDef { extension, meta_type, category, order_sensitive }
}

/// The table of known metadata types (see `type_table`).
#[verifier::rlimit(60)]
pub fn metadata_types() -> (r: Vec<MetadataTypeDef>)
    ensures
        rows_view(r@) == type_table(),
{
    let mut v: Vec<MetadataTypeDef> = Vec::new();
    v.push(def("profile-meta.xml", "Profile", "security", false));
    v.push(def("permissionset-meta.xml", "PermissionSet", "security", false));
    v.push(def("permissionsetgroup-meta.xml", "PermissionSetGroup", "security", false));
    v.push(def("object-meta.xml", "CustomObject", "schema", false));
    v.push(def("field-meta.xml", "CustomField", "schema", false));
    v.push(def("validationRule-meta.xml", "ValidationRule", "schema", false));
    v.push(def("flow-meta.xml", "Flow", "automation", true));
    v.push(def("layout-meta.xml", "Layout", "ui", true));
    v.push(def("labels-meta.xml", "CustomLabels", "ui", false));
    v.push(def("cls-meta.xml", "ApexClass", "code", false));
    v.push(def("trigger-meta.xml", "ApexTrigger", "code", false));
    v.push(def("component-meta.xml", "ApexComponent", "code", false));
    v.push(def("page-meta.xml", "ApexPage", "code", false));
    v.push(def("js-meta.xml", "LightningComponentBundle", "code", false));
    v.push(def("css-meta.xml", "LightningComponentBundle", "code", false));
    v.push(def("html-meta.xml", "LightningComponentBundle", "code", false));
    v.push(def("xml-meta.xml", "LightningComponentBundle", "code", false));
    v.push(def("email-meta.xml", "EmailTemplate", "content", false));
    v.push(def("workflow-meta.xml", "Workflow", "automation", false));
    v.push(def("app-meta.xml", "CustomApplication", "ui", false));
    v.push(def("tab-meta.xml", "CustomTab", "ui", false));
    v.push(def("flexipage-meta.xml", "FlexiPage", "ui", true));
    v.push(def("site-meta.xml", "CustomSite", "ui", false));
    v.push(def("remoteSite-meta.xml", "RemoteSiteSetting", "security", false));
    v.push(def("cspTrustedSite-meta.xml", "CspTrustedSite", "security", false));
    v.push(def("connectedApp-meta.xml", "ConnectedApp", "security", false));
    v.push(def("customMetadata-meta.xml", "CustomMetadata", "schema", false));
    v.push(def("globalValueSet-meta.xml", "GlobalValueSet", "schema", false));
    v.push(def("standardValueSet-meta.xml", "StandardValueSet", "schema", false));
    v.push(def("quickAction-meta.xml", "QuickAction", "ui", false));
    v.push(def("reportType-meta.xml", "ReportType", "analytics", false));
    v.push(def("report-meta.xml", "Report", "analytics", false));
    v.push(def("dashboard-meta.xml", "Dashboard", "analytics", false));
    v.push(def("pathAssistant-meta.xml", "PathAssistant", "ui", false));
    v.push(def("listView-meta.xml", "ListView", "ui", false));
    v.push(def("recordType-meta.xml", "RecordType", "schema", false));
    v.push(def("compactLayout-meta.xml", "CompactLayout", "ui", false));
    v.push(def("webLink-meta.xml", "WebLink", "ui", false));
    v.push(def("sharingRules-meta.xml", "SharingRules", "security", false));
    v.push(def("assignmentRules-meta.xml", "AssignmentRules", "automation", false));
    v.push(def("autoResponseRules-meta.xml", "AutoResponseRules", "automation", false));
    v.push(def("escalationRules-meta.xml", "EscalationRules", "automation", false));
    v.push(def("matchingRule-meta.xml", "MatchingRule", "schema", false));
    v.push(def("duplicateRule-meta.xml", "DuplicateRule", "schema", false));
    v.push(def("customPermission-meta.xml", "CustomPermission", "security", false));
    v.push(def("role-meta.xml", "Role", "security", false));
    v.push(def("group-meta.xml", "Group", "security", false));
    v.push(def("authprovider-meta.xml", "AuthProvider", "security", false));
    v.push(def("samlssoconfig-meta.xml", "SamlSsoConfig", "security", false));
    v.push(def("crt-meta.xml", "Certificate", "security", false));
    v.push(def("md-meta.xml", "CustomMetadata", "schema", false));
    v.push(def("indx-meta.xml", "CustomIndex", "schema", false));
    v.push(def("fieldSet-meta.xml", "FieldSet", "schema", false));
    v.push(def("cmp-meta.xml", "AuraDefinitionBundle", "code", false));
    v.push(def("evt-meta.xml", "AuraDefinitionBundle", "code", false));
    v.push(def("resource-meta.xml", "StaticResource", "code", false));
    v.push(def("workflowRule-meta.xml", "WorkflowRule", "automation", false));
    v.push(def("homePageLayout-meta.xml", "HomePageLayout", "ui", false));
    v.push(def("appMenu-meta.xml", "AppMenu", "ui", false));
    v.push(def("community-meta.xml", "Community", "ui", false));
    v.push(def("letter-meta.xml", "Letterhead", "ui", false));
    v.push(def("externalServiceRegistration-meta.xml", "ExternalServiceRegistration", "integration", false));
    v.push(def("namedCredential-meta.xml", "NamedCredential", "integration", false));
    v.push(def("externalCredential-meta.xml", "ExternalCredential", "integration", false));
    v.push(def("settings-meta.xml", "Settings", "config", false));
    v.push(def("installedPackage-meta.xml", "InstalledPackage", "config", false));
    v.push(def("topicsForObjects-meta.xml", "TopicsForObjects", "config", false));
    v.push(def("notiftype-meta.xml", "CustomNotificationType", "config", false));
    v.push(def("cleanDataService-meta.xml", "CleanDataService", "config", false));
    v.push(def("config-meta.xml", "NotificationTypeConfig", "config", false));
    v.push(def("platformEventChannelMember-meta.xml", "PlatformEventChannelMember", "config", false));
    v.push(def("objectTranslation-meta.xml", "CustomObjectTranslation", "translation", false));
    v.push(def("fieldTranslation-meta.xml", "CustomFieldTranslation", "translation", false));
    v.push(def("managedContentType-meta.xml", "ManagedContentType", "content", false));
    v.push(def("iframeWhiteListUrlSettings-meta.xml", "IframeWhiteListUrlSettings", "content", false));
    v.push(def("messageChannel-meta.xml", "LightningMessageChannel", "content", false));
    assert(rows_view(v@) =~= type_table());
    v
}

/// The rows keyed by extension.
pub open spec fn by_extension(t: Seq<TypeRow>) -> Seq<(Seq<char>, TypeRow)> {
    Seq::new(t.len(), |i: int| (t[i].ext, t[i]))
}

/// The row of the first type with extension `ext`.
pub open spec fn row_for_extension(ext: Seq<char>) -> Option<TypeRow> {
    aget(by_extension(type_table()), ext)
}

/// The type name, category and order sensitivity of an extension; an
/// unknown extension is `("Unknown", "other", false)`.
pub open spec fn spec_classify(ext: Seq<char>) -> (Seq<char>, Seq<char>, bool) {
    match row_for_extension(ext) {
        Some(r) => (r.ty, r.cat, r.ordered),
        None => ("Unknown"@, "other"@, false),
    }
}

fn find_extension(defs: &Vec<MetadataTypeDef>, ext: &str) -> (r: Option<usize>)
    ensures
        r matches Some(i) ==> i < defs@.len() && afind(by_extension(rows_view(defs@)), ext@) == Some(i as int),
        r is None ==> afind(by_extension(rows_view(defs@)), ext@) is None,
{
    let ghost keyed = by_extension(rows_view(defs@));
    let n = defs.len();
    let mut i: usize = 0;
    while i < n
        invariant
            n == defs@.len(),
            keyed == by_extension(rows_view(defs@)),
            i <= n,
            forall|j: int| 0 <= j < i ==> keyed[j].0 != ext@,
        decreases n - i,
    {
        if str_eq(defs[i].extension, ext) {
            proof { lemma_afind_first(keyed, ext@, i as int); }
            return Some(i);
        }
        i = i + 1;
    }
    proof { lemma_afind_none(keyed, ext@); }
    None
}

/// Classifies an extension such as `flow-meta.xml` into its type name,
/// category and order sensitivity (see `spec_classify`).
pub fn classify(ext: &str) -> (r: (&'static str, &'static str, bool))
    ensures
        (r.0@, r.1@, r.2) == spec_classify(ext@),
{
    let defs = metadata_types();
    proof { lemma_afind_range(by_extension(type_table()), ext@); }
    match find_extension(&defs, ext) {
        Some(i) => (defs[i].meta_type, defs[i].category, defs[i].order_sensitive),
        None => ("Unknown", "other", false),
    }
}

/// The type names of the table, each once, in the order of their first
/// row, with the order sensitivity of that row.
pub open spec fn config_info(t: Seq<TypeRow>) -> Seq<(Seq<char>, bool)>
    decreases t.len(),
{
    if t.len() == 0 {
        Seq::empty()
    } else {
        let rest = config_info(t.drop_last());
        if ahas(rest, t.last().ty) {
            rest
        } else {
            rest.push((t.last().ty, t.last().ordered))
        }
    }
}

pub proof fn lemma_config_info_distinct(t: Seq<TypeRow>)
    ensures
        keys_distinct(config_info(t)),
    decreases t.len(),
{
    if t.len() > 0 {
        let rest = config_info(t.drop_last());
        lemma_config_info_distinct(t.drop_last());
        lemma_afind_range(rest, t.last().ty);
    }
}

/// The formats that every type can be written in.
pub open spec fn all_formats() -> Seq<Seq<char>> {
    seq!["yaml"@, "yaml-ordered"@, "json"@]
}

/// The names and order sensitivities of a list of config entries.
pub open spec fn info_view(v: Seq<(String, bool, Vec<String>)>) -> Seq<(Seq<char>, bool)> {
    Seq::new(v.len(), |i: int| (v[i].0@, v[i].1))
}

/// The views of a list of strings.
pub open spec fn strings_view(v: Seq<String>) -> Seq<Seq<char>> {
    Seq::new(v.len(), |i: int| v[i]@)
}

/// The names of the compact formats: `yaml`, `yaml-ordered`, `json`.
pub fn format_names() -> (r: Vec<String>)
    ensures
        strings_view(r@) == all_formats(),
{
    let mut v: Vec<String> = Vec::new();
    v.push(to_owned_string("yaml"));
    v.push(to_owned_string("yaml-ordered"));
    v.push(to_owned_string("json"));
    assert(strings_view(v@) =~= all_formats());
    v
}

fn find_name(v: &Vec<(String, bool, Vec<String>)>, name: &str) -> (r: Option<usize>)
    ensures
        r matches Some(j) ==> afind(info_view(v@), name@) == Some(j as int),
        r is None ==> afind(info_view(v@), name@) is None,
{
    let ghost iv = info_view(v@);
    let n = v.len();
    let mut j: usize = 0;
    while j < n
        invariant
            n == v@.len(),
            iv == info_view(v@),
            j <= n,
            forall|k: int| 0 <= k < j ==> iv[k].0 != name@,
        decreases n - j,
    {
        if str_eq(v[j].0.as_str(), name) {
            proof { lemma_afind_first(iv, name@, j as int); }
            return Some(j);
        }
        j = j + 1;
    }
    proof { lemma_afind_none(iv, name@); }
    None
}

/// One entry per type name for `config init`: the name, its order
/// sensitivity and the formats it supports; names are not repeated.
pub fn metadata_info_for_config() -> (r: Vec<(String, bool, Vec<String>)>)
    ensures
        info_view(r@) == config_info(type_table()),
        keys_distinct(info_view(r@)),
        forall|i: int| 0 <= i < r@.len() ==> strings_view((#[trigger] r@[i]).2@) == all_formats(),
{
    let defs = metadata_types();
    let ghost t = type_table();
    let mut result: Vec<(String, bool, Vec<String>)> = Vec::new();
    let n = defs.len();
    let mut i: usize = 0;
    while i < n
        invariant
            n == defs@.len(),
            rows_view(defs@) == t,
            i <= n,
            info_view(result@) == config_info(t.take(i as int)),
            forall|k: int| 0 <= k < result@.len() ==> strings_view((#[trigger] result@[k]).2@) == all_formats(),
        decreases n - i,
    {
        let ghost rv = info_view(result@);
        assert(t.take(i + 1).drop_last() =~= t.take(i as int));
        assert(t.take(i + 1).last() == defs@[i as int].view());
        let seen = find_name(&result, defs[i].meta_type).is_some();
        if !seen {
            result.push((to_owned_string(defs[i].meta_type), defs[i].order_sensitive, format_names()));
            assert(info_view(result@) =~= rv.push((defs@[i as int].meta_type@, defs@[i as int].order_sensitive)));
        }
        i = i + 1;
    }
    assert(t.take(n as int) =~= t);
    proof { lemma_config_info_distinct(t); }
    result
}

/// Some known extension ends `name`.
pub open spec fn spec_is_metadata_filename(name: Seq<char>) -> bool {
    exists|i: int| 0 <= i < type_table().len() && ends_with(name, #[trigger] type_table()[i].ext)
}

/// Whether a file name ends with a known metadata extension.
pub fn is_sf_metadata_filename(name: &str) -> (r: bool)
    ensures
        r == spec_is_metadata_filename(name@),
{
    let defs = metadata_types();
    let ghost t = type_table();
    let n = defs.len();
    let mut i: usize = 0;
    while i < n
        invariant
            n == defs@.len(),
            rows_view(defs@) == t,
            t == type_table(),
            t.len() == n,
            i <= n,
            forall|k: int| 0 <= k < i ==> !ends_with(name@, #[trigger] t[k].ext),
        decreases n - i,
    {
        assert(t[i as int] == defs@[i as int].view());
        if ends_with_exec(name, defs[i].extension) {
            assert(ends_with(name@, type_table()[i as int].ext));
            return true;
        }
        i = i + 1;
    }
    false
}

/// The type name for a short type such as `flow`: that of the extension
/// `<short>-meta.xml`, or the short type itself when no type has it.
pub open spec fn spec_manifest_type_for_short(short: Seq<char>) -> Seq<char> {
    match row_for_extension(short + "-meta.xml"@) {
        Some(r) => r.ty,
        None => short,
    }
}

/// The type name for a short type (see `spec_manifest_type_for_short`).
pub fn manifest_type_for_short(short_type: &str) -> (r: String)
    ensures
        r@ == spec_manifest_type_for_short(short_type@),
{
    let mut ext = to_owned_string(short_type);
    push_str(&mut ext, "-meta.xml");
    let defs = metadata_types();
    proof { lemma_afind_range(by_extension(type_table()), ext@); }
    match find_extension(&defs, ext.as_str()) {
        Some(i) => to_owned_string(defs[i].meta_type),
        None => to_owned_string(short_type),
    }
}


/// `c` in lower case, when it is an ASCII capital.
pub open spec fn lower_ascii(c: char) -> char {
    if 'A' <= c && c <= 'Z' {
        ((c as u32) + 32) as char
    } else {
        c
    }
}

/// `t` with its first letter in lower case.
pub open spec fn uncapitalized(t: Seq<char>) -> Seq<char> {
    if t.len() == 0 {
        t
    } else {
        t.update(0, lower_ascii(t[0]))
    }
}

/// The stem of an extension: what comes before `-meta.xml`.
pub open spec fn ext_stem(ext: Seq<char>) -> Seq<char> {
    ext.subrange(0, ext.len() - 9)
}

/// A type name is given by the extension whose stem it is, capitalized:
/// when a type name of the table, with its first letter in lower case, is
/// the stem of an extension of the table (`report` for `Report`,
/// `reportType` for `ReportType`), that extension's type is that name.
#[verifier::rlimit(100)]
pub proof fn law_type_names_follow_stems(i: int, j: int)
    requires
        0 <= i < type_table().len(),
        0 <= j < type_table().len(),
        uncapitalized(type_table()[i].ty) == ext_stem(type_table()[j].ext),
    ensures
        type_table()[i].ty == type_table()[j].ty,
{
    reveal_strlit("ApexClass");
    reveal_strlit("ApexComponent");
    reveal_strlit("ApexPage");
    reveal_strlit("ApexTrigger");
    reveal_strlit("AppMenu");
    reveal_strlit("AssignmentRules");
    reveal_strlit("AuraDefinitionBundle");
    reveal_strlit("AuthProvider");
    reveal_strlit("AutoResponseRules");
    reveal_strlit("Certificate");
    reveal_strlit("CleanDataService");
    reveal_strlit("Community");
    reveal_strlit("CompactLayout");
    reveal_strlit("ConnectedApp");
    reveal_strlit("CspTrustedSite");
    reveal_strlit("CustomApplication");
    reveal_strlit("CustomField");
    reveal_strlit("CustomFieldTranslation");
    reveal_strlit("CustomIndex");
    reveal_strlit("CustomLabels");
    reveal_strlit("CustomMetadata");
    reveal_strlit("CustomNotificationType");
    reveal_strlit("CustomObject");
    reveal_strlit("CustomObjectTranslation");
    reveal_strlit("CustomPermission");
    reveal_strlit("CustomSite");
    reveal_strlit("CustomTab");
    reveal_strlit("Dashboard");
    reveal_strlit("DuplicateRule");
    reveal_strlit("EmailTemplate");
    reveal_strlit("EscalationRules");
    reveal_strlit("ExternalCredential");
    reveal_strlit("ExternalServiceRegistration");
    reveal_strlit("FieldSet");
    reveal_strlit("FlexiPage");
    reveal_strlit("Flow");
    reveal_strlit("GlobalValueSet");
    reveal_strlit("Group");
    reveal_strlit("HomePageLayout");
    reveal_strlit("IframeWhiteListUrlSettings");
    reveal_strlit("InstalledPackage");
    reveal_strlit("Layout");
    reveal_strlit("Letterhead");
    reveal_strlit("LightningComponentBundle");
    reveal_strlit("LightningMessageChannel");
    reveal_strlit("ListView");
    reveal_strlit("ManagedContentType");
    reveal_strlit("MatchingRule");
    reveal_strlit("NamedCredential");
    reveal_strlit("NotificationTypeConfig");
    reveal_strlit("PathAssistant");
    reveal_strlit("PermissionSet");
    reveal_strlit("PermissionSetGroup");
    reveal_strlit("PlatformEventChannelMember");
    reveal_strlit("Profile");
    reveal_strlit("QuickAction");
    reveal_strlit("RecordType");
    reveal_strlit("RemoteSiteSetting");
    reveal_strlit("Report");
    reveal_strlit("ReportType");
    reveal_strlit("Role");
    reveal_strlit("SamlSsoConfig");
    reveal_strlit("Settings");
    reveal_strlit("SharingRules");
    reveal_strlit("StandardValueSet");
    reveal_strlit("StaticResource");
    reveal_strlit("TopicsForObjects");
    reveal_strlit("ValidationRule");
    reveal_strlit("WebLink");
    reveal_strlit("Workflow");
    reveal_strlit("WorkflowRule");
    reveal_strlit("profile-meta.xml");
    reveal_strlit("permissionset-meta.xml");
    reveal_strlit("permissionsetgroup-meta.xml");
    reveal_strlit("object-meta.xml");
    reveal_strlit("field-meta.xml");
    reveal_strlit("validationRule-meta.xml");
    reveal_strlit("flow-meta.xml");
    reveal_strlit("layout-meta.xml");
    reveal_strlit("labels-meta.xml");
    reveal_strlit("cls-meta.xml");
    reveal_strlit("trigger-meta.xml");
    reveal_strlit("component-meta.xml");
    reveal_strlit("page-meta.xml");
    reveal_strlit("js-meta.xml");
    reveal_strlit("css-meta.xml");
    reveal_strlit("html-meta.xml");
    reveal_strlit("xml-meta.xml");
    reveal_strlit("email-meta.xml");
    reveal_strlit("workflow-meta.xml");
    reveal_strlit("app-meta.xml");
    reveal_strlit("tab-meta.xml");
    reveal_strlit("flexipage-meta.xml");
    reveal_strlit("site-meta.xml");
    reveal_strlit("remoteSite-meta.xml");
    reveal_strlit("cspTrustedSite-meta.xml");
    reveal_strlit("connectedApp-meta.xml");
    reveal_strlit("customMetadata-meta.xml");
    reveal_strlit("globalValueSet-meta.xml");
    reveal_strlit("standardValueSet-meta.xml");
    reveal_strlit("quickAction-meta.xml");
    reveal_strlit("reportType-meta.xml");
    reveal_strlit("report-meta.xml");
    reveal_strlit("dashboard-meta.xml");
    reveal_strlit("pathAssistant-meta.xml");
    reveal_strlit("listView-meta.xml");
    reveal_strlit("recordType-meta.xml");
    reveal_strlit("compactLayout-meta.xml");
    reveal_strlit("webLink-meta.xml");
    reveal_strlit("sharingRules-meta.xml");
    reveal_strlit("assignmentRules-meta.xml");
    reveal_strlit("autoResponseRules-meta.xml");
    reveal_strlit("escalationRules-meta.xml");
    reveal_strlit("matchingRule-meta.xml");
    reveal_strlit("duplicateRule-meta.xml");
    reveal_strlit("customPermission-meta.xml");
    reveal_strlit("role-meta.xml");
    reveal_strlit("group-meta.xml");
    reveal_strlit("authprovider-meta.xml");
    reveal_strlit("samlssoconfig-meta.xml");
    reveal_strlit("crt-meta.xml");
    reveal_strlit("md-meta.xml");
    reveal_strlit("indx-meta.xml");
    reveal_strlit("fieldSet-meta.xml");
    reveal_strlit("cmp-meta.xml");
    reveal_strlit("evt-meta.xml");
    reveal_strlit("resource-meta.xml");
    reveal_strlit("workflowRule-meta.xml");
    reveal_strlit("homePageLayout-meta.xml");
    reveal_strlit("appMenu-meta.xml");
    reveal_strlit("community-meta.xml");
    reveal_strlit("letter-meta.xml");
    reveal_strlit("externalServiceRegistration-meta.xml");
    reveal_strlit("namedCredential-meta.xml");
    reveal_strlit("externalCredential-meta.xml");
    reveal_strlit("settings-meta.xml");
    reveal_strlit("installedPackage-meta.xml");
    reveal_strlit("topicsForObjects-meta.xml");
    reveal_strlit("notiftype-meta.xml");
    reveal_strlit("cleanDataService-meta.xml");
    reveal_strlit("config-meta.xml");
    reveal_strlit("platformEventChannelMember-meta.xml");
    reveal_strlit("objectTranslation-meta.xml");
    reveal_strlit("fieldTranslation-meta.xml");
    reveal_strlit("managedContentType-meta.xml");
    reveal_strlit("iframeWhiteListUrlSettings-meta.xml");
    reveal_strlit("messageChannel-meta.xml");
    let t = type_table();
    assert(uncapitalized(t[i].ty).len() == t[i].ty.len());
    assert(ext_stem(t[j].ext).len() == t[j].ext.len() - 9);
    if i == 0 && j == 10 {
        assert(uncapitalized(t[0].ty)[0] != ext_stem(t[10].ext)[0]);
    }
    if i == 0 && j == 37 {
        assert(uncapitalized(t[0].ty)[0] != ext_stem(t[37].ext)[0]);
    }
    if i == 0 && j == 58 {
        assert(uncapitalized(t[0].ty)[0] != ext_stem(t[58].ext)[0]);
    }
    if i == 1 && j == 33 {
        assert(uncapitalized(t[1].ty)[1] != ext_stem(t[33].ext)[1]);
    }
    if i == 1 && j == 36 {
        assert(uncapitalized(t[1].ty)[0] != ext_stem(t[36].ext)[0]);
    }
    if i == 1 && j == 43 {
        assert(uncapitalized(t[1].ty)[0] != ext_stem(t[43].ext)[0]);
    }
    if i == 1 && j == 48 {
        assert(uncapitalized(t[1].ty)[0] != ext_stem(t[48].ext)[0]);
    }
    if i == 2 && j == 63 {
        assert(uncapitalized(t[2].ty)[0] != ext_stem(t[63].ext)[0]);
    }
    if i == 2 && j == 73 {
        assert(uncapitalized(t[2].ty)[0] != ext_stem(t[73].ext)[0]);
    }
    if i == 3 && j == 25 {
        assert(uncapitalized(t[3].ty)[1] != ext_stem(t[25].ext)[1]);
    }
    if i == 3 && j == 38 {
        assert(uncapitalized(t[3].ty)[0] != ext_stem(t[38].ext)[0]);
    }
    if i == 3 && j == 42 {
        assert(uncapitalized(t[3].ty)[0] != ext_stem(t[42].ext)[0]);
    }
    if i == 3 && j == 47 {
        assert(uncapitalized(t[3].ty)[0] != ext_stem(t[47].ext)[0]);
    }
    if i == 3 && j == 56 {
        assert(uncapitalized(t[3].ty)[0] != ext_stem(t[56].ext)[0]);
    }
    if i == 4 && j == 29 {
        assert(uncapitalized(t[4].ty)[0] != ext_stem(t[29].ext)[0]);
    }
    if i == 5 && j == 24 {
        assert(uncapitalized(t[5].ty)[0] != ext_stem(t[24].ext)[0]);
    }
    if i == 5 && j == 26 {
        assert(uncapitalized(t[5].ty)[0] != ext_stem(t[26].ext)[0]);
    }
    if i == 5 && j == 27 {
        assert(uncapitalized(t[5].ty)[0] != ext_stem(t[27].ext)[0]);
    }
    if i == 5 && j == 57 {
        assert(uncapitalized(t[5].ty)[0] != ext_stem(t[57].ext)[0]);
    }
    if i == 5 && j == 75 {
        assert(uncapitalized(t[5].ty)[0] != ext_stem(t[75].ext)[0]);
    }
    if i == 6 && j == 12 {
        assert(uncapitalized(t[6].ty)[0] != ext_stem(t[12].ext)[0]);
    }
    if i == 6 && j == 15 {
        assert(uncapitalized(t[6].ty)[0] != ext_stem(t[15].ext)[0]);
    }
    if i == 6 && j == 22 {
        assert(uncapitalized(t[6].ty)[0] != ext_stem(t[22].ext)[0]);
    }
    if i == 6 && j == 45 {
        assert(uncapitalized(t[6].ty)[0] != ext_stem(t[45].ext)[0]);
    }
    if i == 6 && j == 51 {
        assert(uncapitalized(t[6].ty)[0] != ext_stem(t[51].ext)[0]);
    }
    if i == 7 && j == 3 {
        assert(uncapitalized(t[7].ty)[0] != ext_stem(t[3].ext)[0]);
    }
    if i == 7 && j == 8 {
        assert(uncapitalized(t[7].ty)[2] != ext_stem(t[8].ext)[2]);
    }
    if i == 7 && j == 31 {
        assert(uncapitalized(t[7].ty)[0] != ext_stem(t[31].ext)[0]);
    }
    if i == 7 && j == 60 {
        assert(uncapitalized(t[7].ty)[1] != ext_stem(t[60].ext)[1]);
    }
    if i == 7 && j == 69 {
        assert(uncapitalized(t[7].ty)[0] != ext_stem(t[69].ext)[0]);
    }
    if i == 8 && j == 25 {
        assert(uncapitalized(t[8].ty)[1] != ext_stem(t[25].ext)[1]);
    }
    if i == 8 && j == 38 {
        assert(uncapitalized(t[8].ty)[0] != ext_stem(t[38].ext)[0]);
    }
    if i == 8 && j == 42 {
        assert(uncapitalized(t[8].ty)[0] != ext_stem(t[42].ext)[0]);
    }
    if i == 8 && j == 47 {
        assert(uncapitalized(t[8].ty)[0] != ext_stem(t[47].ext)[0]);
    }
    if i == 8 && j == 56 {
        assert(uncapitalized(t[8].ty)[0] != ext_stem(t[56].ext)[0]);
    }
    if i == 9 && j == 11 {
        assert(uncapitalized(t[9].ty)[0] != ext_stem(t[11].ext)[0]);
    }
    if i == 9 && j == 21 {
        assert(uncapitalized(t[9].ty)[0] != ext_stem(t[21].ext)[0]);
    }
    if i == 9 && j == 32 {
        assert(uncapitalized(t[9].ty)[0] != ext_stem(t[32].ext)[0]);
    }
    if i == 9 && j == 59 {
        assert(uncapitalized(t[9].ty)[0] != ext_stem(t[59].ext)[0]);
    }
    if i == 9 && j == 67 {
        assert(uncapitalized(t[9].ty)[0] != ext_stem(t[67].ext)[0]);
    }
    if i == 10 && j == 29 {
        assert(uncapitalized(t[10].ty)[0] != ext_stem(t[29].ext)[0]);
    }
    if i == 11 && j == 1 {
        assert(uncapitalized(t[11].ty)[0] != ext_stem(t[1].ext)[0]);
    }
    if i == 11 && j == 33 {
        assert(uncapitalized(t[11].ty)[0] != ext_stem(t[33].ext)[0]);
    }
    if i == 11 && j == 36 {
        assert(uncapitalized(t[11].ty)[0] != ext_stem(t[36].ext)[0]);
    }
    if i == 11 && j == 43 {
        assert(uncapitalized(t[11].ty)[0] != ext_stem(t[43].ext)[0]);
    }
    if i == 11 && j == 48 {
        assert(uncapitalized(t[11].ty)[0] != ext_stem(t[48].ext)[0]);
    }
    if i == 12 && j == 18 {
        assert(uncapitalized(t[12].ty)[0] != ext_stem(t[18].ext)[0]);
    }
    if i == 12 && j == 34 {
        assert(uncapitalized(t[12].ty)[0] != ext_stem(t[34].ext)[0]);
    }
    if i == 12 && j == 52 {
        assert(uncapitalized(t[12].ty)[0] != ext_stem(t[52].ext)[0]);
    }
    if i == 12 && j == 55 {
        assert(uncapitalized(t[12].ty)[0] != ext_stem(t[55].ext)[0]);
    }
    if i == 12 && j == 64 {
        assert(uncapitalized(t[12].ty)[0] != ext_stem(t[64].ext)[0]);
    }
    if i == 17 && j == 1 {
        assert(uncapitalized(t[17].ty)[0] != ext_stem(t[1].ext)[0]);
    }
    if i == 17 && j == 33 {
        assert(uncapitalized(t[17].ty)[0] != ext_stem(t[33].ext)[0]);
    }
    if i == 17 && j == 36 {
        assert(uncapitalized(t[17].ty)[0] != ext_stem(t[36].ext)[0]);
    }
    if i == 17 && j == 43 {
        assert(uncapitalized(t[17].ty)[0] != ext_stem(t[43].ext)[0]);
    }
    if i == 17 && j == 48 {
        assert(uncapitalized(t[17].ty)[0] != ext_stem(t[48].ext)[0]);
    }
    if i == 18 && j == 34 {
        assert(uncapitalized(t[18].ty)[0] != ext_stem(t[34].ext)[0]);
    }
    if i == 18 && j == 52 {
        assert(uncapitalized(t[18].ty)[0] != ext_stem(t[52].ext)[0]);
    }
    if i == 18 && j == 55 {
        assert(uncapitalized(t[18].ty)[0] != ext_stem(t[55].ext)[0]);
    }
    if i == 18 && j == 64 {
        assert(uncapitalized(t[18].ty)[0] != ext_stem(t[64].ext)[0]);
    }
    if i == 19 && j == 40 {
        assert(uncapitalized(t[19].ty)[0] != ext_stem(t[40].ext)[0]);
    }
    if i == 19 && j == 71 {
        assert(uncapitalized(t[19].ty)[0] != ext_stem(t[71].ext)[0]);
    }
    if i == 20 && j == 11 {
        assert(uncapitalized(t[20].ty)[1] != ext_stem(t[11].ext)[1]);
    }
    if i == 20 && j == 21 {
        assert(uncapitalized(t[20].ty)[0] != ext_stem(t[21].ext)[0]);
    }
    if i == 20 && j == 32 {
        assert(uncapitalized(t[20].ty)[0] != ext_stem(t[32].ext)[0]);
    }
    if i == 20 && j == 59 {
        assert(uncapitalized(t[20].ty)[1] != ext_stem(t[59].ext)[1]);
    }
    if i == 20 && j == 67 {
        assert(uncapitalized(t[20].ty)[0] != ext_stem(t[67].ext)[0]);
    }
    if i == 21 && j == 11 {
        assert(uncapitalized(t[21].ty)[0] != ext_stem(t[11].ext)[0]);
    }
    if i == 21 && j == 32 {
        assert(uncapitalized(t[21].ty)[0] != ext_stem(t[32].ext)[0]);
    }
    if i == 21 && j == 59 {
        assert(uncapitalized(t[21].ty)[0] != ext_stem(t[59].ext)[0]);
    }
    if i == 21 && j == 67 {
        assert(uncapitalized(t[21].ty)[0] != ext_stem(t[67].ext)[0]);
    }
    if i == 22 && j == 23 {
        assert(uncapitalized(t[22].ty)[0] != ext_stem(t[23].ext)[0]);
    }
    if i == 22 && j == 30 {
        assert(uncapitalized(t[22].ty)[0] != ext_stem(t[30].ext)[0]);
    }
    if i == 22 && j == 35 {
        assert(uncapitalized(t[22].ty)[0] != ext_stem(t[35].ext)[0]);
    }
    if i == 23 && j == 40 {
        assert(uncapitalized(t[23].ty)[0] != ext_stem(t[40].ext)[0]);
    }
    if i == 23 && j == 71 {
        assert(uncapitalized(t[23].ty)[0] != ext_stem(t[71].ext)[0]);
    }
    if i == 24 && j == 5 {
        assert(uncapitalized(t[24].ty)[0] != ext_stem(t[5].ext)[0]);
    }
    if i == 24 && j == 26 {
        assert(uncapitalized(t[24].ty)[1] != ext_stem(t[26].ext)[1]);
    }
    if i == 24 && j == 27 {
        assert(uncapitalized(t[24].ty)[0] != ext_stem(t[27].ext)[0]);
    }
    if i == 24 && j == 57 {
        assert(uncapitalized(t[24].ty)[0] != ext_stem(t[57].ext)[0]);
    }
    if i == 24 && j == 75 {
        assert(uncapitalized(t[24].ty)[0] != ext_stem(t[75].ext)[0]);
    }
    if i == 25 && j == 38 {
        assert(uncapitalized(t[25].ty)[0] != ext_stem(t[38].ext)[0]);
    }
    if i == 25 && j == 42 {
        assert(uncapitalized(t[25].ty)[0] != ext_stem(t[42].ext)[0]);
    }
    if i == 25 && j == 47 {
        assert(uncapitalized(t[25].ty)[0] != ext_stem(t[47].ext)[0]);
    }
    if i == 25 && j == 56 {
        assert(uncapitalized(t[25].ty)[0] != ext_stem(t[56].ext)[0]);
    }
    if i == 26 && j == 5 {
        assert(uncapitalized(t[26].ty)[0] != ext_stem(t[5].ext)[0]);
    }
    if i == 26 && j == 24 {
        assert(uncapitalized(t[26].ty)[1] != ext_stem(t[24].ext)[1]);
    }
    if i == 26 && j == 27 {
        assert(uncapitalized(t[26].ty)[0] != ext_stem(t[27].ext)[0]);
    }
    if i == 26 && j == 57 {
        assert(uncapitalized(t[26].ty)[0] != ext_stem(t[57].ext)[0]);
    }
    if i == 26 && j == 75 {
        assert(uncapitalized(t[26].ty)[0] != ext_stem(t[75].ext)[0]);
    }
    if i == 27 && j == 5 {
        assert(uncapitalized(t[27].ty)[0] != ext_stem(t[5].ext)[0]);
    }
    if i == 27 && j == 24 {
        assert(uncapitalized(t[27].ty)[0] != ext_stem(t[24].ext)[0]);
    }
    if i == 27 && j == 26 {
        assert(uncapitalized(t[27].ty)[0] != ext_stem(t[26].ext)[0]);
    }
    if i == 27 && j == 57 {
        assert(uncapitalized(t[27].ty)[0] != ext_stem(t[57].ext)[0]);
    }
    if i == 27 && j == 75 {
        assert(uncapitalized(t[27].ty)[0] != ext_stem(t[75].ext)[0]);
    }
    if i == 28 && j == 44 {
        assert(uncapitalized(t[28].ty)[0] != ext_stem(t[44].ext)[0]);
    }
    if i == 28 && j == 65 {
        assert(uncapitalized(t[28].ty)[0] != ext_stem(t[65].ext)[0]);
    }
    if i == 28 && j == 66 {
        assert(uncapitalized(t[28].ty)[0] != ext_stem(t[66].ext)[0]);
    }
    if i == 28 && j == 68 {
        assert(uncapitalized(t[28].ty)[0] != ext_stem(t[68].ext)[0]);
    }
    if i == 28 && j == 72 {
        assert(uncapitalized(t[28].ty)[0] != ext_stem(t[72].ext)[0]);
    }
    if i == 30 && j == 23 {
        assert(uncapitalized(t[30].ty)[2] != ext_stem(t[23].ext)[2]);
    }
    if i == 30 && j == 35 {
        assert(uncapitalized(t[30].ty)[2] != ext_stem(t[35].ext)[2]);
    }
    if i == 31 && j == 3 {
        assert(uncapitalized(t[31].ty)[0] != ext_stem(t[3].ext)[0]);
    }
    if i == 31 && j == 7 {
        assert(uncapitalized(t[31].ty)[0] != ext_stem(t[7].ext)[0]);
    }
    if i == 31 && j == 8 {
        assert(uncapitalized(t[31].ty)[0] != ext_stem(t[8].ext)[0]);
    }
    if i == 31 && j == 60 {
        assert(uncapitalized(t[31].ty)[0] != ext_stem(t[60].ext)[0]);
    }
    if i == 31 && j == 69 {
        assert(uncapitalized(t[31].ty)[0] != ext_stem(t[69].ext)[0]);
    }
    if i == 32 && j == 11 {
        assert(uncapitalized(t[32].ty)[0] != ext_stem(t[11].ext)[0]);
    }
    if i == 32 && j == 21 {
        assert(uncapitalized(t[32].ty)[0] != ext_stem(t[21].ext)[0]);
    }
    if i == 32 && j == 59 {
        assert(uncapitalized(t[32].ty)[0] != ext_stem(t[59].ext)[0]);
    }
    if i == 32 && j == 67 {
        assert(uncapitalized(t[32].ty)[0] != ext_stem(t[67].ext)[0]);
    }
    if i == 33 && j == 1 {
        assert(uncapitalized(t[33].ty)[1] != ext_stem(t[1].ext)[1]);
    }
    if i == 33 && j == 36 {
        assert(uncapitalized(t[33].ty)[0] != ext_stem(t[36].ext)[0]);
    }
    if i == 33 && j == 43 {
        assert(uncapitalized(t[33].ty)[0] != ext_stem(t[43].ext)[0]);
    }
    if i == 33 && j == 48 {
        assert(uncapitalized(t[33].ty)[0] != ext_stem(t[48].ext)[0]);
    }
    if i == 34 && j == 18 {
        assert(uncapitalized(t[34].ty)[0] != ext_stem(t[18].ext)[0]);
    }
    if i == 34 && j == 52 {
        assert(uncapitalized(t[34].ty)[0] != ext_stem(t[52].ext)[0]);
    }
    if i == 34 && j == 55 {
        assert(uncapitalized(t[34].ty)[0] != ext_stem(t[55].ext)[0]);
    }
    if i == 34 && j == 64 {
        assert(uncapitalized(t[34].ty)[0] != ext_stem(t[64].ext)[0]);
    }
    if i == 35 && j == 23 {
        assert(uncapitalized(t[35].ty)[2] != ext_stem(t[23].ext)[2]);
    }
    if i == 35 && j == 30 {
        assert(uncapitalized(t[35].ty)[2] != ext_stem(t[30].ext)[2]);
    }
    if i == 36 && j == 1 {
        assert(uncapitalized(t[36].ty)[0] != ext_stem(t[1].ext)[0]);
    }
    if i == 36 && j == 33 {
        assert(uncapitalized(t[36].ty)[0] != ext_stem(t[33].ext)[0]);
    }
    if i == 36 && j == 43 {
        assert(uncapitalized(t[36].ty)[0] != ext_stem(t[43].ext)[0]);
    }
    if i == 36 && j == 48 {
        assert(uncapitalized(t[36].ty)[0] != ext_stem(t[48].ext)[0]);
    }
    if i == 37 && j == 0 {
        assert(uncapitalized(t[37].ty)[0] != ext_stem(t[0].ext)[0]);
    }
    if i == 37 && j == 10 {
        assert(uncapitalized(t[37].ty)[0] != ext_stem(t[10].ext)[0]);
    }
    if i == 37 && j == 58 {
        assert(uncapitalized(t[37].ty)[0] != ext_stem(t[58].ext)[0]);
    }
    if i == 38 && j == 25 {
        assert(uncapitalized(t[38].ty)[0] != ext_stem(t[25].ext)[0]);
    }
    if i == 38 && j == 42 {
        assert(uncapitalized(t[38].ty)[0] != ext_stem(t[42].ext)[0]);
    }
    if i == 38 && j == 47 {
        assert(uncapitalized(t[38].ty)[0] != ext_stem(t[47].ext)[0]);
    }
    if i == 38 && j == 56 {
        assert(uncapitalized(t[38].ty)[0] != ext_stem(t[56].ext)[0]);
    }
    if i == 39 && j == 41 {
        assert(uncapitalized(t[39].ty)[0] != ext_stem(t[41].ext)[0]);
    }
    if i == 39 && j == 62 {
        assert(uncapitalized(t[39].ty)[0] != ext_stem(t[62].ext)[0]);
    }
    if i == 40 && j == 71 {
        assert(uncapitalized(t[40].ty)[0] != ext_stem(t[71].ext)[0]);
    }
    if i == 41 && j == 39 {
        assert(uncapitalized(t[41].ty)[0] != ext_stem(t[39].ext)[0]);
    }
    if i == 41 && j == 62 {
        assert(uncapitalized(t[41].ty)[0] != ext_stem(t[62].ext)[0]);
    }
    if i == 42 && j == 25 {
        assert(uncapitalized(t[42].ty)[0] != ext_stem(t[25].ext)[0]);
    }
    if i == 42 && j == 38 {
        assert(uncapitalized(t[42].ty)[0] != ext_stem(t[38].ext)[0]);
    }
    if i == 42 && j == 47 {
        assert(uncapitalized(t[42].ty)[0] != ext_stem(t[47].ext)[0]);
    }
    if i == 42 && j == 56 {
        assert(uncapitalized(t[42].ty)[0] != ext_stem(t[56].ext)[0]);
    }
    if i == 43 && j == 1 {
        assert(uncapitalized(t[43].ty)[0] != ext_stem(t[1].ext)[0]);
    }
    if i == 43 && j == 33 {
        assert(uncapitalized(t[43].ty)[0] != ext_stem(t[33].ext)[0]);
    }
    if i == 43 && j == 36 {
        assert(uncapitalized(t[43].ty)[0] != ext_stem(t[36].ext)[0]);
    }
    if i == 43 && j == 48 {
        assert(uncapitalized(t[43].ty)[0] != ext_stem(t[48].ext)[0]);
    }
    if i == 44 && j == 28 {
        assert(uncapitalized(t[44].ty)[0] != ext_stem(t[28].ext)[0]);
    }
    if i == 44 && j == 65 {
        assert(uncapitalized(t[44].ty)[0] != ext_stem(t[65].ext)[0]);
    }
    if i == 44 && j == 66 {
        assert(uncapitalized(t[44].ty)[0] != ext_stem(t[66].ext)[0]);
    }
    if i == 44 && j == 68 {
        assert(uncapitalized(t[44].ty)[1] != ext_stem(t[68].ext)[1]);
    }
    if i == 44 && j == 72 {
        assert(uncapitalized(t[44].ty)[0] != ext_stem(t[72].ext)[0]);
    }
    if i == 45 && j == 6 {
        assert(uncapitalized(t[45].ty)[0] != ext_stem(t[6].ext)[0]);
    }
    if i == 45 && j == 12 {
        assert(uncapitalized(t[45].ty)[0] != ext_stem(t[12].ext)[0]);
    }
    if i == 45 && j == 15 {
        assert(uncapitalized(t[45].ty)[0] != ext_stem(t[15].ext)[0]);
    }
    if i == 45 && j == 22 {
        assert(uncapitalized(t[45].ty)[0] != ext_stem(t[22].ext)[0]);
    }
    if i == 45 && j == 51 {
        assert(uncapitalized(t[45].ty)[0] != ext_stem(t[51].ext)[0]);
    }
    if i == 46 && j == 4 {
        assert(uncapitalized(t[46].ty)[0] != ext_stem(t[4].ext)[0]);
    }
    if i == 46 && j == 17 {
        assert(uncapitalized(t[46].ty)[0] != ext_stem(t[17].ext)[0]);
    }
    if i == 47 && j == 25 {
        assert(uncapitalized(t[47].ty)[0] != ext_stem(t[25].ext)[0]);
    }
    if i == 47 && j == 38 {
        assert(uncapitalized(t[47].ty)[0] != ext_stem(t[38].ext)[0]);
    }
    if i == 47 && j == 42 {
        assert(uncapitalized(t[47].ty)[0] != ext_stem(t[42].ext)[0]);
    }
    if i == 47 && j == 56 {
        assert(uncapitalized(t[47].ty)[0] != ext_stem(t[56].ext)[0]);
    }
    if i == 48 && j == 1 {
        assert(uncapitalized(t[48].ty)[0] != ext_stem(t[1].ext)[0]);
    }
    if i == 48 && j == 33 {
        assert(uncapitalized(t[48].ty)[0] != ext_stem(t[33].ext)[0]);
    }
    if i == 48 && j == 36 {
        assert(uncapitalized(t[48].ty)[0] != ext_stem(t[36].ext)[0]);
    }
    if i == 48 && j == 43 {
        assert(uncapitalized(t[48].ty)[0] != ext_stem(t[43].ext)[0]);
    }
    if i == 49 && j == 29 {
        assert(uncapitalized(t[49].ty)[0] != ext_stem(t[29].ext)[0]);
    }
    if i == 50 && j == 5 {
        assert(uncapitalized(t[50].ty)[0] != ext_stem(t[5].ext)[0]);
    }
    if i == 50 && j == 24 {
        assert(uncapitalized(t[50].ty)[1] != ext_stem(t[24].ext)[1]);
    }
    if i == 50 && j == 27 {
        assert(uncapitalized(t[50].ty)[0] != ext_stem(t[27].ext)[0]);
    }
    if i == 50 && j == 57 {
        assert(uncapitalized(t[50].ty)[0] != ext_stem(t[57].ext)[0]);
    }
    if i == 50 && j == 75 {
        assert(uncapitalized(t[50].ty)[0] != ext_stem(t[75].ext)[0]);
    }
    if i == 51 && j == 29 {
        assert(uncapitalized(t[51].ty)[0] != ext_stem(t[29].ext)[0]);
    }
    if i == 52 && j == 18 {
        assert(uncapitalized(t[52].ty)[0] != ext_stem(t[18].ext)[0]);
    }
    if i == 52 && j == 34 {
        assert(uncapitalized(t[52].ty)[0] != ext_stem(t[34].ext)[0]);
    }
    if i == 52 && j == 55 {
        assert(uncapitalized(t[52].ty)[0] != ext_stem(t[55].ext)[0]);
    }
    if i == 52 && j == 64 {
        assert(uncapitalized(t[52].ty)[0] != ext_stem(t[64].ext)[0]);
    }
    if i == 55 && j == 5 {
        assert(uncapitalized(t[55].ty)[0] != ext_stem(t[5].ext)[0]);
    }
    if i == 55 && j == 24 {
        assert(uncapitalized(t[55].ty)[0] != ext_stem(t[24].ext)[0]);
    }
    if i == 55 && j == 26 {
        assert(uncapitalized(t[55].ty)[0] != ext_stem(t[26].ext)[0]);
    }
    if i == 55 && j == 27 {
        assert(uncapitalized(t[55].ty)[0] != ext_stem(t[27].ext)[0]);
    }
    if i == 55 && j == 57 {
        assert(uncapitalized(t[55].ty)[0] != ext_stem(t[57].ext)[0]);
    }
    if i == 55 && j == 75 {
        assert(uncapitalized(t[55].ty)[0] != ext_stem(t[75].ext)[0]);
    }
    if i == 56 && j == 25 {
        assert(uncapitalized(t[56].ty)[0] != ext_stem(t[25].ext)[0]);
    }
    if i == 56 && j == 38 {
        assert(uncapitalized(t[56].ty)[0] != ext_stem(t[38].ext)[0]);
    }
    if i == 56 && j == 42 {
        assert(uncapitalized(t[56].ty)[0] != ext_stem(t[42].ext)[0]);
    }
    if i == 56 && j == 47 {
        assert(uncapitalized(t[56].ty)[0] != ext_stem(t[47].ext)[0]);
    }
    if i == 57 && j == 5 {
        assert(uncapitalized(t[57].ty)[0] != ext_stem(t[5].ext)[0]);
    }
    if i == 57 && j == 24 {
        assert(uncapitalized(t[57].ty)[0] != ext_stem(t[24].ext)[0]);
    }
    if i == 57 && j == 26 {
        assert(uncapitalized(t[57].ty)[0] != ext_stem(t[26].ext)[0]);
    }
    if i == 57 && j == 27 {
        assert(uncapitalized(t[57].ty)[0] != ext_stem(t[27].ext)[0]);
    }
    if i == 57 && j == 75 {
        assert(uncapitalized(t[57].ty)[0] != ext_stem(t[75].ext)[0]);
    }
    if i == 58 && j == 0 {
        assert(uncapitalized(t[58].ty)[0] != ext_stem(t[0].ext)[0]);
    }
    if i == 58 && j == 10 {
        assert(uncapitalized(t[58].ty)[0] != ext_stem(t[10].ext)[0]);
    }
    if i == 58 && j == 37 {
        assert(uncapitalized(t[58].ty)[0] != ext_stem(t[37].ext)[0]);
    }
    if i == 59 && j == 11 {
        assert(uncapitalized(t[59].ty)[3] != ext_stem(t[11].ext)[3]);
    }
    if i == 59 && j == 21 {
        assert(uncapitalized(t[59].ty)[0] != ext_stem(t[21].ext)[0]);
    }
    if i == 59 && j == 32 {
        assert(uncapitalized(t[59].ty)[0] != ext_stem(t[32].ext)[0]);
    }
    if i == 59 && j == 67 {
        assert(uncapitalized(t[59].ty)[0] != ext_stem(t[67].ext)[0]);
    }
    if i == 60 && j == 23 {
        assert(uncapitalized(t[60].ty)[0] != ext_stem(t[23].ext)[0]);
    }
    if i == 60 && j == 30 {
        assert(uncapitalized(t[60].ty)[0] != ext_stem(t[30].ext)[0]);
    }
    if i == 60 && j == 35 {
        assert(uncapitalized(t[60].ty)[0] != ext_stem(t[35].ext)[0]);
    }
    if i == 62 && j == 39 {
        assert(uncapitalized(t[62].ty)[0] != ext_stem(t[39].ext)[0]);
    }
    if i == 62 && j == 41 {
        assert(uncapitalized(t[62].ty)[0] != ext_stem(t[41].ext)[0]);
    }
    if i == 63 && j == 2 {
        assert(uncapitalized(t[63].ty)[0] != ext_stem(t[2].ext)[0]);
    }
    if i == 63 && j == 73 {
        assert(uncapitalized(t[63].ty)[0] != ext_stem(t[73].ext)[0]);
    }
    if i == 64 && j == 18 {
        assert(uncapitalized(t[64].ty)[0] != ext_stem(t[18].ext)[0]);
    }
    if i == 64 && j == 34 {
        assert(uncapitalized(t[64].ty)[0] != ext_stem(t[34].ext)[0]);
    }
    if i == 64 && j == 52 {
        assert(uncapitalized(t[64].ty)[0] != ext_stem(t[52].ext)[0]);
    }
    if i == 64 && j == 55 {
        assert(uncapitalized(t[64].ty)[0] != ext_stem(t[55].ext)[0]);
    }
    if i == 65 && j == 28 {
        assert(uncapitalized(t[65].ty)[0] != ext_stem(t[28].ext)[0]);
    }
    if i == 65 && j == 44 {
        assert(uncapitalized(t[65].ty)[0] != ext_stem(t[44].ext)[0]);
    }
    if i == 65 && j == 66 {
        assert(uncapitalized(t[65].ty)[0] != ext_stem(t[66].ext)[0]);
    }
    if i == 65 && j == 68 {
        assert(uncapitalized(t[65].ty)[0] != ext_stem(t[68].ext)[0]);
    }
    if i == 65 && j == 72 {
        assert(uncapitalized(t[65].ty)[0] != ext_stem(t[72].ext)[0]);
    }
    if i == 66 && j == 28 {
        assert(uncapitalized(t[66].ty)[0] != ext_stem(t[28].ext)[0]);
    }
    if i == 66 && j == 44 {
        assert(uncapitalized(t[66].ty)[0] != ext_stem(t[44].ext)[0]);
    }
    if i == 66 && j == 65 {
        assert(uncapitalized(t[66].ty)[0] != ext_stem(t[65].ext)[0]);
    }
    if i == 66 && j == 68 {
        assert(uncapitalized(t[66].ty)[0] != ext_stem(t[68].ext)[0]);
    }
    if i == 66 && j == 72 {
        assert(uncapitalized(t[66].ty)[0] != ext_stem(t[72].ext)[0]);
    }
    if i == 68 && j == 28 {
        assert(uncapitalized(t[68].ty)[0] != ext_stem(t[28].ext)[0]);
    }
    if i == 68 && j == 44 {
        assert(uncapitalized(t[68].ty)[1] != ext_stem(t[44].ext)[1]);
    }
    if i == 68 && j == 65 {
        assert(uncapitalized(t[68].ty)[0] != ext_stem(t[65].ext)[0]);
    }
    if i == 68 && j == 66 {
        assert(uncapitalized(t[68].ty)[0] != ext_stem(t[66].ext)[0]);
    }
    if i == 68 && j == 72 {
        assert(uncapitalized(t[68].ty)[0] != ext_stem(t[72].ext)[0]);
    }
    if i == 70 && j == 74 {
        assert(uncapitalized(t[70].ty)[0] != ext_stem(t[74].ext)[0]);
    }
    if i == 73 && j == 2 {
        assert(uncapitalized(t[73].ty)[0] != ext_stem(t[2].ext)[0]);
    }
    if i == 73 && j == 63 {
        assert(uncapitalized(t[73].ty)[0] != ext_stem(t[63].ext)[0]);
    }
    if i == 74 && j == 70 {
        assert(uncapitalized(t[74].ty)[0] != ext_stem(t[70].ext)[0]);
    }
}
} // verus!
