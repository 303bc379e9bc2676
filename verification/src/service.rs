//! The relay as a systemd user service.

use vstd::prelude::*;

use crate::text;

verus! {

/// The name of the unit.
pub const SERVICE_UNIT: &'static str = "omp-relayd.service";

/// Why a path cannot stand in a unit.
#[derive(Clone, Copy, Debug, PartialEq, Eq, Structural)]
pub enum ServiceError {
    /// The path is not text.
    NotUtf8,
    /// The path holds a control character.
    ControlCharacter,
}

impl ServiceError {
    pub open spec fn message_spec(self) -> Seq<char> {
        match self {
            ServiceError::NotUtf8 => "systemd service paths must be valid UTF-8"@,
            ServiceError::ControlCharacter => "systemd service paths cannot contain control characters"@,
        }
    }

    pub fn message(self) -> (r: &'static str)
        ensures
            r@ == self.message_spec(),
    {
        match self {
            ServiceError::NotUtf8 => "systemd service paths must be valid UTF-8",
            ServiceError::ControlCharacter => "systemd service paths cannot contain control characters",
        }
    }
}

/// A character as it is written between the quotes of a unit file.
pub open spec fn escaped_char(c: char) -> Seq<char> {
    if c == '\\' {
        seq!['\\', '\\']
    } else if c == '"' {
        seq!['\\', '"']
    } else if c == '%' {
        seq!['%', '%']
    } else if c == '$' {
        seq!['$', '$']
    } else {
        seq![c]
    }
}

/// A text as it is written between the quotes of a unit file.
pub open spec fn escaped(s: Seq<char>) -> Seq<char>
    decreases s.len(),
{
    if s.len() == 0 {
        Seq::empty()
    } else {
        escaped(s.drop_last()) + escaped_char(s.last())
    }
}

pub open spec fn has_control(s: Seq<char>) -> bool {
    exists|k: int| 0 <= k < s.len() && text::is_control(#[trigger] s[k])
}

/// A path as a word of a unit file; a path that is not text is given as nothing.
pub open spec fn quoted(path: Option<Seq<char>>) -> Result<Seq<char>, ServiceError> {
    match path {
        None => Err(ServiceError::NotUtf8),
        Some(value) => if has_control(value) {
            Err(ServiceError::ControlCharacter)
        } else {
            Ok(seq!['"'] + escaped(value) + seq!['"'])
        },
    }
}

pub open spec fn option_text(t: Option<&str>) -> Option<Seq<char>> {
    match t {
        Some(s) => Some(s@),
        None => None,
    }
}

pub open spec fn quoted_view(r: Result<String, ServiceError>) -> Result<Seq<char>, ServiceError> {
    match r {
        Ok(word) => Ok(word@),
        Err(error) => Err(error),
    }
}

/// Writes a path as a word of a unit file; a path that is not text is given as nothing.
pub fn systemd_quote_path(path: Option<&str>) -> (r: Result<String, ServiceError>)
    ensures
        quoted_view(r) == quoted(option_text(path)),
{
    let value = match path {
        Some(value) => value,
        None => {
            return Err(ServiceError::NotUtf8);
        },
    };
    let v = text::chars_of(value);
    let mut word = String::new();
    word.push('"');
    let mut i: usize = 0;
    assert(word@ =~= seq!['"'] + escaped(value@.take(0)));
    while i < v.len()
        invariant
            i <= v@.len(),
            v@ == value@,
            word@ == seq!['"'] + escaped(value@.take(i as int)),
            forall|k: int| 0 <= k < i ==> !text::is_control(#[trigger] value@[k]),
            path == Some(value),
        decreases v@.len() - i,
    {
        let c: char = v[i];
        if text::char_is_control(c) {
            assert(text::is_control(value@[i as int]));
            return Err(ServiceError::ControlCharacter);
        }
        if c == '\\' || c == '"' {
            word.push('\\');
        } else if c == '%' {
            word.push('%');
        } else if c == '$' {
            word.push('$');
        }
        word.push(c);
        assert(value@.take(i + 1).drop_last() =~= value@.take(i as int));
        assert(word@ =~= seq!['"'] + escaped(value@.take(i + 1)));
        i += 1;
    }
    assert(value@.take(i as int) =~= value@);
    word.push('"');
    assert(word@ =~= seq!['"'] + escaped(value@) + seq!['"']);
    Ok(word)
}

/// Whether a Unix path ends with what stands for nothing: a slash, or a dot behind a slash.
pub open spec fn is_untidy(path: Seq<char>) -> bool {
    path.len() > 1 && (path.last() == '/' || (path.last() == '.' && path[path.len() - 2] == '/'))
}

/// A Unix path without what stands for nothing at its end.
pub open spec fn tidied(path: Seq<char>) -> Seq<char>
    decreases path.len(),
{
    if is_untidy(path) {
        tidied(path.drop_last())
    } else {
        path
    }
}

/// What stands before the last slash of a path: nothing where there is none, the root where there is
/// nothing else.
pub open spec fn before_slash(path: Seq<char>) -> Seq<char> {
    let slash = text::last_char_index(path, '/');
    if slash < 0 {
        Seq::empty()
    } else if slash == 0 {
        seq!['/']
    } else {
        path.take(slash)
    }
}

/// The directory that a Unix path stands in: the path without its final component. An empty path
/// and the root have none.
pub open spec fn parent_of(path: Seq<char>) -> Option<Seq<char>> {
    let tidy = tidied(path);
    if tidy.len() == 0 || tidy == seq!['/'] {
        None
    } else {
        Some(tidied(before_slash(tidy)))
    }
}

/// Where the first `end` characters of a path end once they are tidied.
fn tidy_end(path: &Vec<char>, end: usize) -> (r: usize)
    requires
        end <= path@.len(),
    ensures
        r <= end,
        path@.take(r as int) == tidied(path@.take(end as int)),
{
    let mut r: usize = end;
    while r > 1 && (path[r - 1] == '/' || (path[r - 1] == '.' && path[r - 2] == '/'))
        invariant
            r <= end <= path@.len(),
            tidied(path@.take(r as int)) == tidied(path@.take(end as int)),
        decreases r,
    {
        assert(path@.take(r as int).drop_last() =~= path@.take(r - 1));
        r -= 1;
    }
    r
}

/// The directory that a Unix path stands in.
pub fn parent_directory(path: &str) -> (r: Option<String>)
    ensures
        match r {
            Some(directory) => parent_of(path@) == Some(directory@),
            None => parent_of(path@) is None,
        },
{
    let v = text::chars_of(path);
    let n: usize = tidy_end(&v, v.len());
    let ghost tidy = v@.take(n as int);
    assert(v@.take(v@.len() as int) =~= path@);
    if n == 0 || (n == 1 && v[0] == '/') {
        assert(n == 1 ==> tidy =~= seq!['/']);
        return None;
    }
    assert(tidy != seq!['/']) by {
        assert(tidy[0] == v@[0]);
    }
    let mut i: usize = n;
    while i > 0 && v[i - 1] != '/'
        invariant
            i <= n <= v@.len(),
            tidy == v@.take(n as int),
            text::last_char_index(v@.take(i as int), '/') == text::last_char_index(tidy, '/'),
        decreases i,
    {
        assert(v@.take(i as int).drop_last() =~= v@.take(i - 1));
        i -= 1;
    }
    let end: usize = if i > 1 {
        i - 1
    } else {
        i
    };
    assert(v@.take(end as int) =~= before_slash(tidy)) by {
        if i > 0 {
            assert(v@.take(i as int).last() == '/');
        }
        if i > 1 {
            assert(tidy.take(i - 1) =~= v@.take(i - 1));
        }
    }
    let last: usize = tidy_end(&v, end);
    let directory = text::text_of(&v, 0, last);
    assert(directory@ =~= v@.take(last as int));
    Some(directory)
}

proof fn lemma_tidied_is_prefix(path: Seq<char>)
    ensures
        tidied(path).len() <= path.len(),
        tidied(path) == path.take(tidied(path).len() as int),
    decreases path.len(),
{
    if is_untidy(path) {
        lemma_tidied_is_prefix(path.drop_last());
        assert(path.drop_last().take(tidied(path).len() as int) =~= path.take(
            tidied(path).len() as int,
        ));
    } else {
        assert(path.take(path.len() as int) =~= path);
    }
}

proof fn lemma_parent_is_prefix(path: Seq<char>)
    requires
        parent_of(path) is Some,
    ensures
        parent_of(path)->Some_0.len() <= path.len(),
        parent_of(path)->Some_0 == path.take(parent_of(path)->Some_0.len() as int),
{
    let tidy = tidied(path);
    let before = before_slash(tidy);
    let n = parent_of(path)->Some_0.len() as int;
    text::lemma_last_char_index(tidy, '/');
    lemma_tidied_is_prefix(path);
    lemma_tidied_is_prefix(before);
    assert(before =~= tidy.take(before.len() as int));
    assert(before.take(n) =~= path.take(n));
}

/// A file stands in the directory that is written before it: behind a tidy directory and a slash, at
/// the root, or by itself. The one exception is the name `.`, which stands for the directory itself.
pub proof fn law_files_stand_in_their_directory(directory: Seq<char>, name: Seq<char>)
    requires
        directory.len() > 0,
        tidied(directory) == directory,
        name.len() > 0,
        !name.contains('/'),
        name != seq!['.'],
    ensures
        parent_of(directory + seq!['/'] + name) == Some(directory),
        parent_of(seq!['/'] + name) == Some(seq!['/']),
        parent_of(name) == Some(Seq::<char>::empty()),
{
    assert forall|k: int| 0 <= k < name.len() implies #[trigger] name[k] != '/' by {}
    assert(name.len() == 1 && name[0] == '.' ==> name =~= seq!['.']);
    let path = directory + seq!['/'] + name;
    assert(path.last() == name.last());
    if name.len() > 1 {
        assert(path[path.len() - 2] == name[name.len() - 2]);
    }
    text::lemma_last_char_index(path, '/');
    assert(path[directory.len() as int] == '/');
    assert forall|k: int| directory.len() < k < path.len() implies #[trigger] path[k] != '/' by {
        assert(path[k] == name[k - directory.len() - 1]);
    }
    assert(path.take(directory.len() as int) =~= directory);
    let rooted = seq!['/'] + name;
    assert(rooted.last() == name.last());
    if name.len() > 1 {
        assert(rooted[rooted.len() - 2] == name[name.len() - 2]);
    }
    text::lemma_last_char_index(rooted, '/');
    assert(rooted[0] == '/');
    assert forall|k: int| 0 < k < rooted.len() implies #[trigger] rooted[k] != '/' by {
        assert(rooted[k] == name[k - 1]);
    }
    text::lemma_last_char_index(name, '/');
}

/// A unit that runs the relay, given the words for its executable, its registry and the directory
/// of the registry, and the address that it binds.
pub open spec fn unit_of_words(
    exe: Seq<char>,
    registry: Seq<char>,
    directory: Seq<char>,
    bind: Seq<char>,
) -> Seq<char> {
    "[Unit]\nDescription=OMP authenticated AI provider relay\nAfter=network-online.target\nWants=network-online.target\n\n[Service]\nType=simple\nExecStart="@
        + exe + " --registry "@ + registry + " serve --bind "@ + bind
        + "\nRestart=on-failure\nRestartSec=2\nUMask=0077\nNoNewPrivileges=true\nPrivateTmp=true\nProtectSystem=strict\nProtectHome=read-only\nReadWritePaths="@
        + directory + "\n\n[Install]\nWantedBy=default.target\n"@
}

/// The unit for an executable and a registry in a directory, or why one of the paths cannot stand
/// in it.
pub open spec fn unit_text(
    exe: Option<Seq<char>>,
    registry: Option<Seq<char>>,
    directory: Seq<char>,
    bind: Seq<char>,
) -> Result<Seq<char>, ServiceError> {
    match quoted(exe) {
        Err(error) => Err(error),
        Ok(exe) => match quoted(registry) {
            Err(error) => Err(error),
            Ok(registry) => match quoted(Some(directory)) {
                Err(error) => Err(error),
                Ok(directory) => Ok(unit_of_words(exe, registry, directory, bind)),
            },
        },
    }
}

/// Writes the unit for an executable and a registry in a directory.
pub fn render_unit(exe: Option<&str>, registry: Option<&str>, directory: &str, bind: &str) -> (r:
    Result<String, ServiceError>)
    ensures
        quoted_view(r) == unit_text(option_text(exe), option_text(registry), directory@, bind@),
{
    let exe = match systemd_quote_path(exe) {
        Ok(word) => word,
        Err(error) => {
            return Err(error);
        },
    };
    let registry = match systemd_quote_path(registry) {
        Ok(word) => word,
        Err(error) => {
            return Err(error);
        },
    };
    let directory = match systemd_quote_path(Some(directory)) {
        Ok(word) => word,
        Err(error) => {
            return Err(error);
        },
    };
    let mut unit =
        "[Unit]\nDescription=OMP authenticated AI provider relay\nAfter=network-online.target\nWants=network-online.target\n\n[Service]\nType=simple\nExecStart=".to_owned();
    unit.append(exe.as_str());
    unit.append(" --registry ");
    unit.append(registry.as_str());
    unit.append(" serve --bind ");
    unit.append(bind);
    unit.append(
        "\nRestart=on-failure\nRestartSec=2\nUMask=0077\nNoNewPrivileges=true\nPrivateTmp=true\nProtectSystem=strict\nProtectHome=read-only\nReadWritePaths=",
    );
    unit.append(directory.as_str());
    unit.append("\n\n[Install]\nWantedBy=default.target\n");
    Ok(unit)
}

/// The directory that a unit may write to: that of the registry, or the present one where the
/// registry has none.
pub open spec fn writable_directory(registry: Option<Seq<char>>) -> Seq<char> {
    match registry {
        Some(path) => match parent_of(path) {
            Some(directory) => directory,
            None => "."@,
        },
        None => "."@,
    }
}

/// The unit that runs the relay with a registry, or why one of the paths cannot stand in it.
pub open spec fn service_unit(
    exe: Option<Seq<char>>,
    registry: Option<Seq<char>>,
    bind: Seq<char>,
) -> Result<Seq<char>, ServiceError> {
    unit_text(exe, registry, writable_directory(registry), bind)
}

proof fn lemma_directory_is_quotable(registry: Seq<char>)
    requires
        !has_control(registry),
    ensures
        quoted(Some(writable_directory(Some(registry)))) is Ok,
{
    reveal_strlit(".");
    let directory = writable_directory(Some(registry));
    if parent_of(registry) is Some {
        lemma_parent_is_prefix(registry);
        assert forall|k: int| 0 <= k < directory.len() implies !text::is_control(
            #[trigger] directory[k],
        ) by {
            assert(directory[k] == registry[k]);
        }
    }
    assert(!has_control(directory));
}

/// Writes the unit that runs the relay: it may write to the directory of its registry only. It
/// fails where the executable or the registry cannot stand in a unit, and only there.
pub fn render_service_unit(exe: Option<&str>, registry: Option<&str>, bind: &str) -> (r: Result<
    String,
    ServiceError,
>)
    ensures
        quoted_view(r) == service_unit(option_text(exe), option_text(registry), bind@),
        r is Ok <==> quoted(option_text(exe)) is Ok && quoted(option_text(registry)) is Ok,
{
    let parent = match registry {
        Some(path) => parent_directory(path),
        None => None,
    };
    let directory = match parent {
        Some(directory) => directory,
        None => ".".to_owned(),
    };
    proof {
        if let Some(path) = option_text(registry) {
            if !has_control(path) {
                lemma_directory_is_quotable(path);
            }
        }
    }
    render_unit(exe, registry, directory.as_str(), bind)
}

/// What is asked of the service.
#[derive(Clone, Debug, PartialEq, Eq)]
pub enum ServiceAction {
    /// Write the unit, then enable and start it, unless that is declined.
    Install { bind: String, no_enable: bool },
    /// Stop, disable and remove the unit.
    Uninstall,
    /// Show the state of the unit.
    Status,
}

/// A thing to do. Each is done once the one before it succeeded.
#[derive(Clone, Debug, PartialEq, Eq)]
pub enum ServiceStep {
    /// Create the directory of the registry, for its owner alone.
    PrepareRegistry,
    /// Write the unit file, and its directory where it is missing.
    WriteUnit(String),
    /// Remove the unit file, where there is one.
    RemoveUnit,
    /// Run `systemctl --user`. Where it is optional it may fail.
    Systemctl { args: Vec<&'static str>, optional: bool },
    /// Print a line.
    Say(String),
    /// Give up.
    Fail(String),
}

#[verifier::ext_equal]
pub enum StepView {
    PrepareRegistry,
    WriteUnit(Seq<char>),
    RemoveUnit,
    Systemctl { args: Seq<Seq<char>>, optional: bool },
    Say(Seq<char>),
    Fail(Seq<char>),
}

pub open spec fn words(args: Seq<&'static str>) -> Seq<Seq<char>> {
    args.map_values(|a: &'static str| a@)
}

impl View for ServiceStep {
    type V = StepView;

    open spec fn view(&self) -> StepView {
        match self {
            ServiceStep::PrepareRegistry => StepView::PrepareRegistry,
            ServiceStep::WriteUnit(unit) => StepView::WriteUnit(unit@),
            ServiceStep::RemoveUnit => StepView::RemoveUnit,
            ServiceStep::Systemctl { args, optional } => StepView::Systemctl {
                args: words(args@),
                optional: *optional,
            },
            ServiceStep::Say(line) => StepView::Say(line@),
            ServiceStep::Fail(message) => StepView::Fail(message@),
        }
    }
}

pub open spec fn step_views(steps: Seq<ServiceStep>) -> Seq<StepView> {
    steps.map_values(|s: ServiceStep| s@)
}

pub open spec fn reload_step() -> StepView {
    StepView::Systemctl { args: seq!["daemon-reload"@], optional: false }
}

/// The steps that install a unit.
pub open spec fn install_steps(
    unit: Result<Seq<char>, ServiceError>,
    no_enable: bool,
    unit_path: Seq<char>,
) -> Seq<StepView> {
    match unit {
        Err(error) => seq![StepView::PrepareRegistry, StepView::Fail(error.message_spec())],
        Ok(unit) => {
            let written = seq![
                StepView::PrepareRegistry,
                StepView::WriteUnit(unit),
                StepView::Say("Wrote "@ + unit_path),
                reload_step(),
            ];
            if no_enable {
                written + seq![
                    StepView::Say("Service unit written; not enabled (--no-enable)."@),
                ]
            } else {
                written + seq![
                    StepView::Systemctl {
                        args: seq!["enable"@, "--now"@, SERVICE_UNIT@],
                        optional: false,
                    },
                    StepView::Say("Enabled and started omp-relayd.service."@),
                ]
            }
        },
    }
}

/// The steps that an action takes, given the unit that is to be installed. Without systemd there
/// are none.
pub open spec fn service_steps(
    linux: bool,
    action: ServiceAction,
    unit: Result<Seq<char>, ServiceError>,
    unit_path: Seq<char>,
) -> Seq<StepView> {
    if !linux {
        seq![StepView::Fail("service management is supported only on Linux with systemd"@)]
    } else {
        match action {
            ServiceAction::Install { bind, no_enable } => install_steps(unit, no_enable, unit_path),
            ServiceAction::Uninstall => seq![
                StepView::Systemctl {
                    args: seq!["disable"@, "--now"@, SERVICE_UNIT@],
                    optional: true,
                },
                StepView::RemoveUnit,
                reload_step(),
            ],
            ServiceAction::Status => seq![
                StepView::Systemctl {
                    args: seq!["status"@, "--no-pager"@, SERVICE_UNIT@],
                    optional: false,
                },
            ],
        }
    }
}

fn systemctl_step(args: Vec<&'static str>, optional: bool) -> (r: ServiceStep)
    ensures
        r@ == (StepView::Systemctl { args: words(args@), optional }),
{
    ServiceStep::Systemctl { args, optional }
}

/// Plans an action, given the unit that is to be installed.
pub fn plan_service(
    linux: bool,
    action: &ServiceAction,
    unit: Result<String, ServiceError>,
    unit_path: &str,
) -> (r: Vec<ServiceStep>)
    ensures
        step_views(r@) == service_steps(linux, *action, quoted_view(unit), unit_path@),
{
    let mut steps: Vec<ServiceStep> = Vec::new();
    if !linux {
        steps.push(
            ServiceStep::Fail(
                "service management is supported only on Linux with systemd".to_owned(),
            ),
        );
        assert(step_views(steps@) =~= service_steps(linux, *action, quoted_view(unit), unit_path@));
        return steps;
    }
    match action {
        ServiceAction::Install { bind: _, no_enable } => {
            steps.push(ServiceStep::PrepareRegistry);
            let unit_file = match unit {
                Ok(unit_file) => unit_file,
                Err(error) => {
                    steps.push(ServiceStep::Fail(error.message().to_owned()));
                    assert(step_views(steps@) =~= service_steps(
                        linux,
                        *action,
                        quoted_view(unit),
                        unit_path@,
                    ));
                    return steps;
                },
            };
            steps.push(ServiceStep::WriteUnit(unit_file));
            steps.push(ServiceStep::Say(text::joined("Wrote ", unit_path)));
            steps.push(systemctl_step(vec!["daemon-reload"], false));
            if *no_enable {
                steps.push(
                    ServiceStep::Say("Service unit written; not enabled (--no-enable).".to_owned()),
                );
            } else {
                steps.push(systemctl_step(vec!["enable", "--now", SERVICE_UNIT], false));
                steps.push(ServiceStep::Say("Enabled and started omp-relayd.service.".to_owned()));
            }
        },
        ServiceAction::Uninstall => {
            steps.push(systemctl_step(vec!["disable", "--now", SERVICE_UNIT], true));
            steps.push(ServiceStep::RemoveUnit);
            steps.push(systemctl_step(vec!["daemon-reload"], false));
        },
        ServiceAction::Status => {
            steps.push(systemctl_step(vec!["status", "--no-pager", SERVICE_UNIT], false));
        },
    }
    assert(step_views(steps@) =~~= service_steps(linux, *action, quoted_view(unit), unit_path@));
    steps
}

/// The unit that an action installs. The others install none, and what stands for it does not
/// matter.
pub open spec fn installed_unit(
    action: ServiceAction,
    exe: Option<Seq<char>>,
    registry: Option<Seq<char>>,
) -> Result<Seq<char>, ServiceError> {
    match action {
        ServiceAction::Install { bind, no_enable } => service_unit(exe, registry, bind@),
        _ => Err(ServiceError::NotUtf8),
    }
}

/// Plans what an action takes. The paths of the executable and the registry are given where they
/// are text.
pub fn service(
    linux: bool,
    action: &ServiceAction,
    exe: Option<&str>,
    registry: Option<&str>,
    unit_path: &str,
) -> (r: Vec<ServiceStep>)
    ensures
        step_views(r@) == service_steps(
            linux,
            *action,
            installed_unit(*action, option_text(exe), option_text(registry)),
            unit_path@,
        ),
{
    let unit = match action {
        ServiceAction::Install { bind, no_enable: _ } => render_service_unit(
            exe,
            registry,
            bind.as_str(),
        ),
        _ => Err(ServiceError::NotUtf8),
    };
    plan_service(linux, action, unit, unit_path)
}

/// What is printed once the unit file was looked for and, where it was there, removed.
pub fn unit_removed(existed: bool, unit_path: &str) -> (r: String)
    ensures
        r@ == (if existed {
            "Removed "@ + unit_path@
        } else {
            "No unit file at "@ + unit_path@
        }),
{
    if existed {
        text::joined("Removed ", unit_path)
    } else {
        text::joined("No unit file at ", unit_path)
    }
}

/// Words with one space between each and the next.
pub open spec fn spaced(args: Seq<Seq<char>>) -> Seq<char>
    decreases args.len(),
{
    if args.len() == 0 {
        Seq::empty()
    } else if args.len() == 1 {
        args[0]
    } else {
        spaced(args.drop_last()).push(' ') + args.last()
    }
}

/// The message where `systemctl` ran and reported failure.
pub fn systemctl_failed(args: &Vec<&'static str>) -> (r: String)
    ensures
        r@ == "systemctl "@ + spaced(words(args@)) + " failed"@,
{
    let mut message = "systemctl ".to_owned();
    let ghost all = words(args@);
    assert(message@ =~= "systemctl "@ + spaced(all.take(0)));
    let mut i: usize = 0;
    while i < args.len()
        invariant
            i <= args@.len(),
            all == words(args@),
            message@ == "systemctl "@ + spaced(all.take(i as int)),
        decreases args@.len() - i,
    {
        assert(all.take(i + 1).drop_last() =~= all.take(i as int));
        if i > 0 {
            message.push(' ');
        }
        message.append(args[i]);
        assert(all[i as int] == args@[i as int]@);
        assert(message@ =~= "systemctl "@ + spaced(all.take(i + 1)));
        i += 1;
    }
    assert(all.take(i as int) =~= all);
    message.append(" failed");
    message
}

/// The message where `systemctl` could not be run.
pub fn systemctl_not_run(error: &str) -> (r: String)
    ensures
        r@ == "failed to run systemctl: "@ + error@,
{
    text::joined("failed to run systemctl: ", error)
}

proof fn lemma_escaped_injective(a: Seq<char>, b: Seq<char>)
    requires
        escaped(a) == escaped(b),
    ensures
        a == b,
    decreases a.len(),
{
    if a.len() == 0 {
        if b.len() > 0 {
            assert(escaped(b).last() == b.last());
        }
        assert(a =~= b);
    } else {
        assert(escaped(a).last() == a.last());
        if b.len() == 0 {
            assert(escaped(b).len() == 0);
        } else {
            assert(escaped(b).last() == b.last());
            let n = escaped(a).len() - escaped_char(a.last()).len();
            assert(escaped(a).take(n) =~= escaped(a.drop_last()));
            assert(escaped(b).take(n) =~= escaped(b.drop_last()));
            lemma_escaped_injective(a.drop_last(), b.drop_last());
            assert(a =~= a.drop_last().push(a.last()));
            assert(b =~= b.drop_last().push(b.last()));
        }
    }
}

/// A word of a unit file tells the path that it was written for: no two paths share one.
pub proof fn law_quoted_paths_are_told_apart(a: Seq<char>, b: Seq<char>)
    requires
        quoted(Some(a)) is Ok,
        quoted(Some(a)) == quoted(Some(b)),
    ensures
        a == b,
{
    let word = quoted(Some(a))->Ok_0;
    assert(word.subrange(1, word.len() - 1) =~= escaped(a));
    assert(word.subrange(1, word.len() - 1) =~= escaped(b));
    lemma_escaped_injective(a, b);
}

proof fn lemma_escaped_control(s: Seq<char>)
    requires
        !has_control(s),
    ensures
        !has_control(escaped(s)),
    decreases s.len(),
{
    if s.len() > 0 {
        let before = s.drop_last();
        assert forall|k: int| 0 <= k < before.len() implies !text::is_control(
            #[trigger] before[k],
        ) by {
            assert(before[k] == s[k]);
        }
        lemma_escaped_control(before);
        assert(!text::is_control(s[s.len() - 1]));
        let head = escaped(before);
        let e = escaped(s);
        assert forall|k: int| 0 <= k < e.len() implies !text::is_control(#[trigger] e[k]) by {
            if k < head.len() {
                assert(e[k] == head[k]);
            } else {
                assert(e[k] == escaped_char(s.last())[k - head.len()]);
            }
        }
    }
}

/// A path takes no more than its place in a unit: its word has no line break or other control
/// character.
pub proof fn law_quoted_paths_stay_on_their_line(path: Seq<char>)
    requires
        quoted(Some(path)) is Ok,
    ensures
        !has_control(quoted(Some(path))->Ok_0),
{
    lemma_escaped_control(path);
    let word = quoted(Some(path))->Ok_0;
    let inner = escaped(path);
    assert forall|k: int| 0 <= k < word.len() implies !text::is_control(#[trigger] word[k]) by {
        if 0 < k < word.len() - 1 {
            assert(word[k] == inner[k - 1]);
        }
    }
}

/// A path is written character by character: a backslash and a double quote come behind a backslash,
/// a percent sign and a dollar sign are doubled, and every other character stands as it is.
pub proof fn law_escaping_is_exact(s: Seq<char>, c: char)
    ensures
        escaped(Seq::empty()) == Seq::<char>::empty(),
        c == '\\' || c == '"' ==> escaped(s.push(c)) == escaped(s).push('\\').push(c),
        c == '%' || c == '$' ==> escaped(s.push(c)) == escaped(s).push(c).push(c),
        c != '\\' && c != '"' && c != '%' && c != '$' ==> escaped(s.push(c)) == escaped(s).push(c),
{
    assert(s.push(c).drop_last() =~= s);
    assert(escaped(s.push(c)) =~= escaped(s) + escaped_char(c));
    assert(escaped(s) + seq![c] =~= escaped(s).push(c));
    assert(escaped(s) + seq!['\\', c] =~= escaped(s).push('\\').push(c));
    assert(escaped(s) + seq![c, c] =~= escaped(s).push(c).push(c));
}

/// A path is written between double quotes, unless it is not text or has a control character: one
/// below 32 or from 127 to 159.
pub proof fn law_quoting_is_exact(path: Seq<char>)
    ensures
        quoted(None) == Err::<Seq<char>, ServiceError>(ServiceError::NotUtf8),
        (exists|k: int|
            0 <= k < path.len() && ((#[trigger] path[k]) as u32 <= 31 || (127 <= path[k] as u32
                && path[k] as u32 <= 159))) ==> quoted(Some(path)) == Err::<Seq<char>, ServiceError>(
            ServiceError::ControlCharacter,
        ),
        !(exists|k: int|
            0 <= k < path.len() && ((#[trigger] path[k]) as u32 <= 31 || (127 <= path[k] as u32
                && path[k] as u32 <= 159))) ==> quoted(Some(path)) == Ok::<Seq<char>, ServiceError>(
            seq!['"'] + escaped(path) + seq!['"'],
        ),
{
    if exists|k: int|
        0 <= k < path.len() && ((#[trigger] path[k]) as u32 <= 31 || (127 <= path[k] as u32
            && path[k] as u32 <= 159)) {
        let k = choose|k: int|
            0 <= k < path.len() && ((#[trigger] path[k]) as u32 <= 31 || (127 <= path[k] as u32
                && path[k] as u32 <= 159));
        assert(text::is_control(path[k]));
    }
    if has_control(path) {
        let k = choose|k: int| 0 <= k < path.len() && text::is_control(#[trigger] path[k]);
        assert(path[k] as u32 <= 31 || (127 <= path[k] as u32 && path[k] as u32 <= 159));
    }
}

/// A unit runs the executable with the registry and the address, and may write to the directory: each
/// of the four stands in its place, as its word is. A path that has no word is refused, the executable
/// before the registry.
pub proof fn law_units_are_exact(
    exe: Option<Seq<char>>,
    registry: Option<Seq<char>>,
    directory: Seq<char>,
    bind: Seq<char>,
)
    ensures
        quoted(exe) matches Err(error) ==> unit_text(exe, registry, directory, bind) == Err::<
            Seq<char>,
            ServiceError,
        >(error),
        quoted(exe) is Ok ==> (quoted(registry) matches Err(error) ==> unit_text(
            exe,
            registry,
            directory,
            bind,
        ) == Err::<Seq<char>, ServiceError>(error)),
        quoted(exe) is Ok && quoted(registry) is Ok ==> (quoted(Some(directory)) matches Err(error)
            ==> unit_text(exe, registry, directory, bind) == Err::<Seq<char>, ServiceError>(error)),
        quoted(exe) is Ok && quoted(registry) is Ok && quoted(Some(directory)) is Ok ==> unit_text(
            exe,
            registry,
            directory,
            bind,
        ) == Ok::<Seq<char>, ServiceError>(
            "[Unit]\nDescription=OMP authenticated AI provider relay\nAfter=network-online.target\nWants=network-online.target\n\n[Service]\nType=simple\nExecStart="@
                + quoted(exe)->Ok_0 + " --registry "@ + quoted(registry)->Ok_0 + " serve --bind "@
                + bind
                + "\nRestart=on-failure\nRestartSec=2\nUMask=0077\nNoNewPrivileges=true\nPrivateTmp=true\nProtectSystem=strict\nProtectHome=read-only\nReadWritePaths="@
                + quoted(Some(directory))->Ok_0 + "\n\n[Install]\nWantedBy=default.target\n"@,
        ),
{
}

/// The unit of a registry may write to the directory that the registry stands in: for a file behind a
/// tidy directory and a slash that is the directory, and where there is none it is the present one.
pub proof fn law_units_write_where_the_registry_is(
    exe: Option<Seq<char>>,
    directory: Seq<char>,
    name: Seq<char>,
    bind: Seq<char>,
)
    requires
        directory.len() > 0,
        tidied(directory) == directory,
        name.len() > 0,
        !name.contains('/'),
        name != seq!['.'],
    ensures
        service_unit(exe, Some(directory + seq!['/'] + name), bind) == unit_text(
            exe,
            Some(directory + seq!['/'] + name),
            directory,
            bind,
        ),
        service_unit(exe, Some(seq!['/']), bind) == unit_text(exe, Some(seq!['/']), "."@, bind),
        service_unit(exe, Some(Seq::empty()), bind) == unit_text(
            exe,
            Some(Seq::empty()),
            "."@,
            bind,
        ),
{
    law_files_stand_in_their_directory(directory, name);
}

/// Slashes at the end of a path, a dot behind them, and repeated slashes before a name do not matter
/// to what the path stands in.
pub proof fn law_idle_slashes_do_not_matter(
    path: Seq<char>,
    directory: Seq<char>,
    name: Seq<char>,
)
    requires
        path.len() > 0,
        directory.len() > 0,
        tidied(directory) == directory,
        name.len() > 0,
        !name.contains('/'),
        name != seq!['.'],
    ensures
        parent_of(path + seq!['/']) == parent_of(path),
        parent_of(path + seq!['/', '.']) == parent_of(path),
        parent_of(directory + seq!['/', '/'] + name) == Some(directory),
        parent_of(directory + seq!['/', '.', '/'] + name) == Some(directory),
{
    let one = path + seq!['/'];
    let two = path + seq!['/', '.'];
    assert(one.drop_last() =~= path);
    assert(two.drop_last() =~= one);
    assert(is_untidy(one) && is_untidy(two));
    assert(tidied(one) == tidied(path));
    assert(tidied(two) == tidied(one));
    let doubled = directory + seq!['/'];
    let dotted = directory + seq!['/', '.'];
    assert(doubled.drop_last() =~= directory);
    assert(dotted.drop_last() =~= doubled);
    assert(is_untidy(doubled) && is_untidy(dotted));
    lemma_last_name(doubled, name);
    lemma_last_name(dotted, name);
    assert(doubled + seq!['/'] + name =~= directory + seq!['/', '/'] + name);
    assert(dotted + seq!['/'] + name =~= directory + seq!['/', '.', '/'] + name);
}

/// Behind whatever is not empty and a slash, a name stands in what is left of that once it is tidied.
proof fn lemma_last_name(before: Seq<char>, name: Seq<char>)
    requires
        before.len() > 0,
        name.len() > 0,
        !name.contains('/'),
        name != seq!['.'],
    ensures
        parent_of(before + seq!['/'] + name) == Some(tidied(before)),
{
    assert forall|k: int| 0 <= k < name.len() implies #[trigger] name[k] != '/' by {}
    assert(name.len() == 1 && name[0] == '.' ==> name =~= seq!['.']);
    let path = before + seq!['/'] + name;
    assert(path.last() == name.last());
    if name.len() > 1 {
        assert(path[path.len() - 2] == name[name.len() - 2]);
    }
    text::lemma_last_char_index(path, '/');
    assert(path[before.len() as int] == '/');
    assert forall|k: int| before.len() < k < path.len() implies #[trigger] path[k] != '/' by {
        assert(path[k] == name[k - before.len() - 1]);
    }
    assert(path.take(before.len() as int) =~= before);
}

/// What each action does, step by step. Nothing but a failure comes without systemd; a path that
/// cannot stand in a unit stops an installation before anything is written.
pub proof fn law_plans_are_exact(
    action: ServiceAction,
    unit: Result<Seq<char>, ServiceError>,
    unit_path: Seq<char>,
)
    ensures
        service_steps(false, action, unit, unit_path) == seq![
            StepView::Fail("service management is supported only on Linux with systemd"@),
        ],
        action is Status ==> service_steps(true, action, unit, unit_path) == seq![
            StepView::Systemctl {
                args: seq!["status"@, "--no-pager"@, "omp-relayd.service"@],
                optional: false,
            },
        ],
        action is Uninstall ==> service_steps(true, action, unit, unit_path) == seq![
            StepView::Systemctl {
                args: seq!["disable"@, "--now"@, "omp-relayd.service"@],
                optional: true,
            },
            StepView::RemoveUnit,
            StepView::Systemctl { args: seq!["daemon-reload"@], optional: false },
        ],
        action matches ServiceAction::Install { bind, no_enable } ==> {
            let steps = service_steps(true, action, unit, unit_path);
            &&& unit matches Err(error) ==> steps == seq![
                StepView::PrepareRegistry,
                StepView::Fail(
                    match error {
                        ServiceError::NotUtf8 => "systemd service paths must be valid UTF-8"@,
                        ServiceError::ControlCharacter => "systemd service paths cannot contain control characters"@,
                    },
                ),
            ]
            &&& unit matches Ok(text) ==> {
                &&& no_enable ==> steps == seq![
                    StepView::PrepareRegistry,
                    StepView::WriteUnit(text),
                    StepView::Say("Wrote "@ + unit_path),
                    StepView::Systemctl { args: seq!["daemon-reload"@], optional: false },
                    StepView::Say("Service unit written; not enabled (--no-enable)."@),
                ]
                &&& !no_enable ==> steps == seq![
                    StepView::PrepareRegistry,
                    StepView::WriteUnit(text),
                    StepView::Say("Wrote "@ + unit_path),
                    StepView::Systemctl { args: seq!["daemon-reload"@], optional: false },
                    StepView::Systemctl {
                        args: seq!["enable"@, "--now"@, "omp-relayd.service"@],
                        optional: false,
                    },
                    StepView::Say("Enabled and started omp-relayd.service."@),
                ]
            }
        },
{
    if let ServiceAction::Install { bind, no_enable } = action {
        if let Ok(text) = unit {
            let steps = service_steps(true, action, unit, unit_path);
            if no_enable {
                assert(steps =~= seq![
                    StepView::PrepareRegistry,
                    StepView::WriteUnit(text),
                    StepView::Say("Wrote "@ + unit_path),
                    StepView::Systemctl { args: seq!["daemon-reload"@], optional: false },
                    StepView::Say("Service unit written; not enabled (--no-enable)."@),
                ]);
            } else {
                assert(steps =~= seq![
                    StepView::PrepareRegistry,
                    StepView::WriteUnit(text),
                    StepView::Say("Wrote "@ + unit_path),
                    StepView::Systemctl { args: seq!["daemon-reload"@], optional: false },
                    StepView::Systemctl {
                        args: seq!["enable"@, "--now"@, "omp-relayd.service"@],
                        optional: false,
                    },
                    StepView::Say("Enabled and started omp-relayd.service."@),
                ]);
            }
        }
    }
}

/// An installation writes the unit of its own executable, registry and address.
pub proof fn law_installations_write_their_unit(
    bind: String,
    no_enable: bool,
    exe: Option<Seq<char>>,
    registry: Option<Seq<char>>,
)
    ensures
        installed_unit(ServiceAction::Install { bind, no_enable }, exe, registry) == service_unit(
            exe,
            registry,
            bind@,
        ),
{
}

/// Words are put behind one another with one space between them.
pub proof fn law_words_are_spaced(args: Seq<Seq<char>>, word: Seq<char>)
    ensures
        spaced(Seq::empty()) == Seq::<char>::empty(),
        spaced(seq![word]) == word,
        args.len() > 0 ==> spaced(args.push(word)) == spaced(args) + seq![' '] + word,
{
    if args.len() > 0 {
        assert(args.push(word).drop_last() =~= args);
        assert(spaced(args.push(word)) =~= spaced(args) + seq![' '] + word);
    }
}

/// What a step is seen as is what it holds.
pub proof fn law_views_of_steps_are_faithful(step: ServiceStep)
    ensures
        step is PrepareRegistry ==> step@ is PrepareRegistry,
        step is RemoveUnit ==> step@ is RemoveUnit,
        step matches ServiceStep::WriteUnit(unit) ==> step@ == StepView::WriteUnit(unit@),
        step matches ServiceStep::Say(line) ==> step@ == StepView::Say(line@),
        step matches ServiceStep::Fail(message) ==> step@ == StepView::Fail(message@),
        step matches ServiceStep::Systemctl { args, optional } ==> {
            &&& step@ is Systemctl
            &&& step@->optional == optional
            &&& step@->args.len() == args@.len()
            &&& forall|k: int| 0 <= k < args@.len() ==> #[trigger] step@->args[k] == args@[k]@
        },
{
}

/// What the texts and the results of this module are seen as is what they hold, each in its place.
pub proof fn law_views_of_words_are_faithful(
    t: Option<&str>,
    r: Result<String, ServiceError>,
    steps: Seq<ServiceStep>,
    k: int,
)
    ensures
        t matches Some(s) ==> option_text(t) == Some(s@),
        t is None ==> option_text(t) is None,
        r matches Ok(word) ==> quoted_view(r) == Ok::<Seq<char>, ServiceError>(word@),
        r matches Err(error) ==> quoted_view(r) == Err::<Seq<char>, ServiceError>(error),
        step_views(steps).len() == steps.len(),
        0 <= k < steps.len() ==> step_views(steps)[k] == steps[k]@,
{
}

} // verus!
