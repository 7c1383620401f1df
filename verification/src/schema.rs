//! The typed model of a unit file: one `UnitSection`, one `ServiceSection`
//! and one `InstallSection`, each holding the captured `Key=Value` (or
//! comment) line spans verbatim.
//!
//! An optional list field is either absent (`None`) or holds at least one
//! element once the mapper has run; a singleton field keeps the span of the
//! last occurrence. `exec_start` holds the whitespace-delimited tokens of
//! the first `ExecStart` directive only.

use vstd::prelude::*;

verus! {

/// A field value of a unit file: either a single captured span or the
/// ordered spans of a repeated key.
#[derive(Debug, Clone, PartialEq, Eq)]
pub enum SystemdValue {
    /// Ordered captured spans of a key that occurred more than once.
    List(Vec<Vec<u8>>),
    /// A single captured span.
    Str(Vec<u8>),
}

/// Mathematical value of a `SystemdValue`.
#[verifier::ext_equal]
pub enum SystemdValueView {
    List(Seq<Seq<u8>>),
    Str(Seq<u8>),
}

impl View for SystemdValue {
    type V = SystemdValueView;

    open spec fn view(&self) -> SystemdValueView {
        match self {
            SystemdValue::List(v) => SystemdValueView::List(v.deep_view()),
            SystemdValue::Str(v) => SystemdValueView::Str(v@),
        }
    }
}

/// View of an optional singleton field.
pub open spec fn opt_view(o: Option<Vec<u8>>) -> Option<Seq<u8>> {
    match o {
        Some(v) => Some(v@),
        None => None,
    }
}

/// View of an optional ordered-list field.
pub open spec fn opt_list_view(o: Option<Vec<Vec<u8>>>) -> Option<Seq<Seq<u8>>> {
    match o {
        Some(v) => Some(v.deep_view()),
        None => None,
    }
}

/// The `[Unit]` section. Fields are declared in emission order: the
/// serializer replays them top to bottom, comments directly under the
/// heading.
#[derive(Debug, Clone, PartialEq, Eq)]
pub struct UnitSection {
    pub head: Vec<u8>,
    pub comments: Option<Vec<Vec<u8>>>,
    pub description: Vec<u8>,
    pub after: Option<Vec<Vec<u8>>>,
    pub documentation: Option<Vec<Vec<u8>>>,
    pub requires_list: Option<Vec<Vec<u8>>>,
    pub wants: Option<Vec<Vec<u8>>>,
    pub binds_to: Option<Vec<u8>>,
    pub before: Option<Vec<Vec<u8>>>,
    pub conflicts: Option<Vec<Vec<u8>>>,
    pub condition: Option<Vec<u8>>,
    pub assert_list: Option<Vec<Vec<u8>>>,
    pub condition_path_exists: Option<Vec<u8>>,
}

/// Mathematical value of a `UnitSection`.
#[verifier::ext_equal]
pub struct UnitSectionView {
    pub head: Seq<u8>,
    pub comments: Option<Seq<Seq<u8>>>,
    pub description: Seq<u8>,
    pub after: Option<Seq<Seq<u8>>>,
    pub documentation: Option<Seq<Seq<u8>>>,
    pub requires_list: Option<Seq<Seq<u8>>>,
    pub wants: Option<Seq<Seq<u8>>>,
    pub binds_to: Option<Seq<u8>>,
    pub before: Option<Seq<Seq<u8>>>,
    pub conflicts: Option<Seq<Seq<u8>>>,
    pub condition: Option<Seq<u8>>,
    pub assert_list: Option<Seq<Seq<u8>>>,
    pub condition_path_exists: Option<Seq<u8>>,
}

impl View for UnitSection {
    type V = UnitSectionView;

    open spec fn view(&self) -> UnitSectionView {
        UnitSectionView {
            head: self.head@,
            comments: opt_list_view(self.comments),
            description: self.description@,
            after: opt_list_view(self.after),
            documentation: opt_list_view(self.documentation),
            requires_list: opt_list_view(self.requires_list),
            wants: opt_list_view(self.wants),
            binds_to: opt_view(self.binds_to),
            before: opt_list_view(self.before),
            conflicts: opt_list_view(self.conflicts),
            condition: opt_view(self.condition),
            assert_list: opt_list_view(self.assert_list),
            condition_path_exists: opt_view(self.condition_path_exists),
        }
    }
}

impl UnitSectionView {
    /// The value every field starts from before any directive is seen.
    pub open spec fn empty() -> UnitSectionView {
        UnitSectionView {
            head: Seq::empty(),
            comments: None,
            description: Seq::empty(),
            after: None,
            documentation: None,
            requires_list: None,
            wants: None,
            binds_to: None,
            before: None,
            conflicts: None,
            condition: None,
            assert_list: None,
            condition_path_exists: None,
        }
    }
}

impl Default for UnitSection {
    fn default() -> (r: UnitSection)
        ensures
            r@ == UnitSectionView::empty(),
    {
        let r = UnitSection {
            head: Vec::new(),
            comments: None,
            description: Vec::new(),
            after: None,
            documentation: None,
            requires_list: None,
            wants: None,
            binds_to: None,
            before: None,
            conflicts: None,
            condition: None,
            assert_list: None,
            condition_path_exists: None,
        };
        proof {
            assert(r@ =~= UnitSectionView::empty());
        }
        r
    }
}

/// The `[Service]` section, fields in emission order.
#[derive(Debug, Clone, PartialEq, Eq)]
pub struct ServiceSection {
    pub head: Vec<u8>,
    pub comments: Option<Vec<Vec<u8>>>,
    pub service_type: Vec<u8>,
    pub exec_start: Vec<Vec<u8>>,
    pub start_pre: Option<Vec<u8>>,
    pub start_post: Option<Vec<u8>>,
    pub reload: Option<Vec<Vec<u8>>>,
    pub exec_stop: Option<Vec<u8>>,
    pub stop_post: Option<Vec<u8>>,
    pub restart_sec: Option<Vec<u8>>,
    pub restart: Option<Vec<u8>>,
    pub timeout_sec: Option<Vec<u8>>,
    pub environment_file: Option<Vec<u8>>,
    pub kill_mode: Option<Vec<u8>>,
    pub restart_prevent_exit_status: Option<Vec<u8>>,
    pub runtime_directory: Option<Vec<u8>>,
    pub runtime_directory_mode: Option<Vec<u8>>,
    pub environment: Option<Vec<u8>>,
    pub standard_output: Option<Vec<u8>>,
    pub limit_no_file: Option<Vec<u8>>,
}

/// Mathematical value of a `ServiceSection`.
#[verifier::ext_equal]
pub struct ServiceSectionView {
    pub head: Seq<u8>,
    pub comments: Option<Seq<Seq<u8>>>,
    pub service_type: Seq<u8>,
    pub exec_start: Seq<Seq<u8>>,
    pub start_pre: Option<Seq<u8>>,
    pub start_post: Option<Seq<u8>>,
    pub reload: Option<Seq<Seq<u8>>>,
    pub exec_stop: Option<Seq<u8>>,
    pub stop_post: Option<Seq<u8>>,
    pub restart_sec: Option<Seq<u8>>,
    pub restart: Option<Seq<u8>>,
    pub timeout_sec: Option<Seq<u8>>,
    pub environment_file: Option<Seq<u8>>,
    pub kill_mode: Option<Seq<u8>>,
    pub restart_prevent_exit_status: Option<Seq<u8>>,
    pub runtime_directory: Option<Seq<u8>>,
    pub runtime_directory_mode: Option<Seq<u8>>,
    pub environment: Option<Seq<u8>>,
    pub standard_output: Option<Seq<u8>>,
    pub limit_no_file: Option<Seq<u8>>,
}

impl View for ServiceSection {
    type V = ServiceSectionView;

    open spec fn view(&self) -> ServiceSectionView {
        ServiceSectionView {
            head: self.head@,
            comments: opt_list_view(self.comments),
            service_type: self.service_type@,
            exec_start: self.exec_start.deep_view(),
            start_pre: opt_view(self.start_pre),
            start_post: opt_view(self.start_post),
            reload: opt_list_view(self.reload),
            exec_stop: opt_view(self.exec_stop),
            stop_post: opt_view(self.stop_post),
            restart_sec: opt_view(self.restart_sec),
            restart: opt_view(self.restart),
            timeout_sec: opt_view(self.timeout_sec),
            environment_file: opt_view(self.environment_file),
            kill_mode: opt_view(self.kill_mode),
            restart_prevent_exit_status: opt_view(self.restart_prevent_exit_status),
            runtime_directory: opt_view(self.runtime_directory),
            runtime_directory_mode: opt_view(self.runtime_directory_mode),
            environment: opt_view(self.environment),
            standard_output: opt_view(self.standard_output),
            limit_no_file: opt_view(self.limit_no_file),
        }
    }
}

impl ServiceSectionView {
    pub open spec fn empty() -> ServiceSectionView {
        ServiceSectionView {
            head: Seq::empty(),
            comments: None,
            service_type: Seq::empty(),
            exec_start: Seq::empty(),
            start_pre: None,
            start_post: None,
            reload: None,
            exec_stop: None,
            stop_post: None,
            restart_sec: None,
            restart: None,
            timeout_sec: None,
            environment_file: None,
            kill_mode: None,
            restart_prevent_exit_status: None,
            runtime_directory: None,
            runtime_directory_mode: None,
            environment: None,
            standard_output: None,
            limit_no_file: None,
        }
    }
}

impl Default for ServiceSection {
    fn default() -> (r: ServiceSection)
        ensures
            r@ == ServiceSectionView::empty(),
    {
        let r = ServiceSection {
            head: Vec::new(),
            comments: None,
            service_type: Vec::new(),
            exec_start: Vec::new(),
            start_pre: None,
            start_post: None,
            reload: None,
            exec_stop: None,
            stop_post: None,
            restart_sec: None,
            restart: None,
            timeout_sec: None,
            environment_file: None,
            kill_mode: None,
            restart_prevent_exit_status: None,
            runtime_directory: None,
            runtime_directory_mode: None,
            environment: None,
            standard_output: None,
            limit_no_file: None,
        };
        proof {
            assert(r@ =~= ServiceSectionView::empty());
        }
        r
    }
}

/// The `[Install]` section, fields in emission order.
#[derive(Debug, Clone, PartialEq, Eq)]
pub struct InstallSection {
    pub head: Vec<u8>,
    pub comments: Option<Vec<Vec<u8>>>,
    pub wanted_by: Option<Vec<u8>>,
    pub required_by: Option<Vec<u8>>,
    pub alias: Option<Vec<u8>>,
    pub also: Option<Vec<u8>>,
    pub default_instance: Option<Vec<u8>>,
}

/// Mathematical value of an `InstallSection`.
#[verifier::ext_equal]
pub struct InstallSectionView {
    pub head: Seq<u8>,
    pub comments: Option<Seq<Seq<u8>>>,
    pub wanted_by: Option<Seq<u8>>,
    pub required_by: Option<Seq<u8>>,
    pub alias: Option<Seq<u8>>,
    pub also: Option<Seq<u8>>,
    pub default_instance: Option<Seq<u8>>,
}

impl View for InstallSection {
    type V = InstallSectionView;

    open spec fn view(&self) -> InstallSectionView {
        InstallSectionView {
            head: self.head@,
            comments: opt_list_view(self.comments),
            wanted_by: opt_view(self.wanted_by),
            required_by: opt_view(self.required_by),
            alias: opt_view(self.alias),
            also: opt_view(self.also),
            default_instance: opt_view(self.default_instance),
        }
    }
}

impl InstallSectionView {
    pub open spec fn empty() -> InstallSectionView {
        InstallSectionView {
            head: Seq::empty(),
            comments: None,
            wanted_by: None,
            required_by: None,
            alias: None,
            also: None,
            default_instance: None,
        }
    }
}

impl Default for InstallSection {
    fn default() -> (r: InstallSection)
        ensures
            r@ == InstallSectionView::empty(),
    {
        let r = InstallSection {
            head: Vec::new(),
            comments: None,
            wanted_by: None,
            required_by: None,
            alias: None,
            also: None,
            default_instance: None,
        };
        proof {
            assert(r@ =~= InstallSectionView::empty());
        }
        r
    }
}

/// The whole model: exactly one section of each kind.
#[derive(Debug, Clone, PartialEq, Eq)]
pub struct SystemdFile {
    pub unit: UnitSection,
    pub service: ServiceSection,
    pub install: InstallSection,
}

/// Mathematical value of a `SystemdFile`.
#[verifier::ext_equal]
pub struct SystemdFileView {
    pub unit: UnitSectionView,
    pub service: ServiceSectionView,
    pub install: InstallSectionView,
}

impl View for SystemdFile {
    type V = SystemdFileView;

    open spec fn view(&self) -> SystemdFileView {
        SystemdFileView { unit: self.unit@, service: self.service@, install: self.install@ }
    }
}

impl SystemdFileView {
    pub open spec fn empty() -> SystemdFileView {
        SystemdFileView {
            unit: UnitSectionView::empty(),
            service: ServiceSectionView::empty(),
            install: InstallSectionView::empty(),
        }
    }
}

impl Default for SystemdFile {
    fn default() -> (r: SystemdFile)
        ensures
            r@ == SystemdFileView::empty(),
    {
        SystemdFile {
            unit: UnitSection::default(),
            service: ServiceSection::default(),
            install: InstallSection::default(),
        }
    }
}

} // verus!
