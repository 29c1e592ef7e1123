//! `package_repos`: the script adds a repository or a signing key to the system's
//! package manager.

use vstd::prelude::*;
use crate::model::{Category, Detail, Finding, FlagKind, Verdict};
use crate::script::{texts, Command, Ctx};
use crate::search::{first_index, is_first, lemma_first_index, some_index};
use crate::text::{has_prefix, starts_with, str_eq};

verus! {

/// The check's name.
pub const ID: &'static str = "package_repos";

/// How serious its findings are.
pub const KIND: FlagKind = FlagKind::Yellow;

/// What it watches over.
pub const CATEGORY: Category = Category::Sensitive;

/// What it looks for.
pub const DESCRIPTION: &'static str = "Adds apt/yum/zypper repositories or signing keys";

/// A path inside one of the package manager's repository directories.
pub open spec fn repo_path(t: Seq<char>) -> bool {
    ||| has_prefix(t, "/etc/apt/sources.list"@)
    ||| has_prefix(t, "/etc/apt/trusted.gpg.d"@)
    ||| has_prefix(t, "/etc/apt/keyrings"@)
    ||| has_prefix(t, "/usr/share/keyrings"@)
    ||| has_prefix(t, "/etc/yum.repos.d"@)
    ||| has_prefix(t, "/etc/zypp/repos.d"@)
    ||| has_prefix(t, "/etc/pacman.d"@)
}

fn is_repo_path(t: &str) -> (r: bool)
    ensures
        r == repo_path(t@),
{
    starts_with(t, "/etc/apt/sources.list") || starts_with(t, "/etc/apt/trusted.gpg.d")
        || starts_with(t, "/etc/apt/keyrings") || starts_with(t, "/usr/share/keyrings")
        || starts_with(t, "/etc/yum.repos.d") || starts_with(t, "/etc/zypp/repos.d") || starts_with(
        t,
        "/etc/pacman.d",
    )
}

/// Some argument or redirection target of `c` lies in a repository directory.
pub open spec fn touches_repo_dir(c: Command) -> bool {
    ||| exists|i: int| 0 <= i < c.args@.len() && repo_path(#[trigger] c.args@[i].text@)
    ||| exists|i: int| 0 <= i < c.redirects@.len() && repo_path(#[trigger] c.redirects@[i].text@)
}

/// What the command adds to the package manager, if anything. Removing a repository
/// file (`rm`, `unlink`) adds nothing.
pub open spec fn spec_adds_repo(c: Command) -> Option<Seq<char>> {
    let name = c.name@;
    if name == "apt-key"@ && c.spec_has_arg("add"@) {
        Some("APT signing key"@)
    } else if name == "add-apt-repository"@ {
        Some("APT repository"@)
    } else if name == "rpm"@ && c.spec_has_arg("--import"@) {
        Some("RPM signing key"@)
    } else if (name == "dnf"@ || name == "yum"@) && (c.spec_has_arg("config-manager"@)
        || c.spec_has_arg("--add-repo"@)) {
        Some("YUM/DNF repository"@)
    } else if name == "zypper"@ && (c.spec_has_arg("addrepo"@) || c.spec_has_arg("ar"@)) {
        Some("zypper repository"@)
    } else if name == "rm"@ || name == "unlink"@ {
        None
    } else if touches_repo_dir(c) {
        Some("package repository definition"@)
    } else {
        None
    }
}

/// What the command adds to the package manager, if anything.
pub fn adds_repo(c: &Command) -> (r: Option<&'static str>)
    ensures
        r is Some <==> spec_adds_repo(*c) is Some,
        r matches Some(s) ==> s@ == spec_adds_repo(*c)->0,
{
    let mut touches = false;
    let mut i: usize = 0;
    while i < c.args.len()
        invariant
            i <= c.args@.len(),
            !touches ==> forall|j: int| 0 <= j < i ==> !repo_path(#[trigger] c.args@[j].text@),
            touches ==> touches_repo_dir(*c),
        decreases c.args.len() - i,
    {
        if is_repo_path(c.args[i].text.as_str()) {
            touches = true;
        }
        i = i + 1;
    }
    let mut i: usize = 0;
    while i < c.redirects.len()
        invariant
            i <= c.redirects@.len(),
            !touches ==> forall|j: int| 0 <= j < c.args@.len() ==> !repo_path(
                #[trigger] c.args@[j].text@,
            ),
            !touches ==> forall|j: int|
                0 <= j < i ==> !repo_path(#[trigger] c.redirects@[j].text@),
            touches ==> touches_repo_dir(*c),
        decreases c.redirects.len() - i,
    {
        if is_repo_path(c.redirects[i].text.as_str()) {
            touches = true;
        }
        i = i + 1;
    }
    assert(touches == touches_repo_dir(*c));
    let name = c.name.as_str();
    if str_eq(name, "apt-key") && c.has_arg("add") {
        Some("APT signing key")
    } else if str_eq(name, "add-apt-repository") {
        Some("APT repository")
    } else if str_eq(name, "rpm") && c.has_arg("--import") {
        Some("RPM signing key")
    } else if (str_eq(name, "dnf") || str_eq(name, "yum")) && (c.has_arg("config-manager")
        || c.has_arg("--add-repo")) {
        Some("YUM/DNF repository")
    } else if str_eq(name, "zypper") && (c.has_arg("addrepo") || c.has_arg("ar")) {
        Some("zypper repository")
    } else if str_eq(name, "rm") || str_eq(name, "unlink") {
        None
    } else if touches {
        Some("package repository definition")
    } else {
        None
    }
}

/// Reports the first command that adds to the system package manager.
pub struct PackageRepos {
    reported: bool,
}

pub const PACKAGE_REPOS_EXPLANATION: &'static str = "Future `apt upgrade` / `dnf update` runs will trust and install whatever that repository publishes.";

/// The title of the finding for what is added.
pub open spec fn package_repos_title(what: Seq<char>) -> Seq<char> {
    "adds a "@ + what + " to the system package manager"@
}

/// The finding this check gives for the command `c`.
pub open spec fn package_repos_detail(c: Command, d: Detail) -> bool {
    &&& d.title@ == package_repos_title(spec_adds_repo(c)->0)
    &&& d.explanation@ == PACKAGE_REPOS_EXPLANATION@
    &&& d.fix is None
    &&& d.span == Some(c.span)
}

impl PackageRepos {
    /// The check has reported already.
    pub closed spec fn reported(self) -> bool {
        self.reported
    }

    /// A fresh check.
    pub fn new() -> (p: PackageRepos)
        ensures
            !p.reported(),
    {
        PackageRepos { reported: false }
    }

    /// Looks at one command: the first that adds to the package manager is reported, once.
    pub fn visit_command(&mut self, c: &Command) -> (v: Verdict)
        ensures
            !old(self).reported() && spec_adds_repo(*c) is Some ==> {
                &&& final(self).reported()
                &&& v matches Verdict::Yellow(d) && package_repos_detail(*c, d)
            },
            !(!old(self).reported() && spec_adds_repo(*c) is Some) ==> {
                &&& final(self).reported() == old(self).reported()
                &&& v is Ignore
            },
    {
        let what = match adds_repo(c) {
            Some(w) => w,
            None => return Verdict::Ignore,
        };
        if self.reported {
            return Verdict::Ignore;
        }
        self.reported = true;
        let mut title = String::from_str("adds a ");
        title.append(what);
        title.append(" to the system package manager");
        Verdict::Yellow(
            Detail::new(title, String::from_str(PACKAGE_REPOS_EXPLANATION)).at(c.span),
        )
    }
}

/// The commands of the script that add to the package manager, by position.
pub open spec fn adding_commands(ctx: Ctx) -> spec_fn(int) -> bool {
    |k: int| 0 <= k < ctx.commands@.len() && spec_adds_repo(ctx.commands@[k]) is Some
}

impl PackageRepos {
    /// Runs the check over a whole script: every command in order.
    ///
    /// A script that adds to the package manager gets exactly one finding, about
    /// the first command that does; a script that does not gets none, and a check
    /// that has reported already reports nothing more.
    pub fn analyze(&mut self, ctx: &Ctx) -> (findings: Vec<Finding>)
        ensures
            old(self).reported() || !some_index(adding_commands(*ctx)) ==> {
                &&& findings@.len() == 0
                &&& final(self).reported() == old(self).reported()
            },
            !old(self).reported() && some_index(adding_commands(*ctx)) ==> {
                &&& final(self).reported()
                &&& findings@.len() == 1
                &&& findings@[0].kind is Yellow
                &&& package_repos_detail(
                    ctx.commands@[first_index(adding_commands(*ctx))],
                    findings@[0].detail,
                )
            },
    {
        let ghost was = self.reported();
        let ghost ap = adding_commands(*ctx);
        let mut findings: Vec<Finding> = Vec::new();
        let mut k: usize = 0;
        while k < ctx.commands.len()
            invariant
                ap == adding_commands(*ctx),
                k <= ctx.commands@.len(),
                was ==> self.reported() && findings@.len() == 0,
                !was ==> (self.reported() <==> exists|j: int| 0 <= j < k && #[trigger] ap(j)),
                !was && !self.reported() ==> findings@.len() == 0,
                !was && self.reported() ==> {
                    &&& is_first(ap, first_index(ap))
                    &&& findings@.len() == 1
                    &&& findings@[0].kind is Yellow
                    &&& package_repos_detail(ctx.commands@[first_index(ap)], findings@[0].detail)
                },
            decreases ctx.commands.len() - k,
        {
            let ghost before = self.reported();
            let v = self.visit_command(&ctx.commands[k]);
            proof {
                if !before && ap(k as int) {
                    assert(is_first(ap, k as int));
                    lemma_first_index(ap, k as int);
                }
            }
            if let Some(f) = v.into_finding() {
                findings.push(f);
            }
            k = k + 1;
        }
        proof {
            if some_index(ap) {
                let j = choose|j: int| 0 <= j && #[trigger] ap(j);
                assert(0 <= j < k);
            }
        }
        findings
    }
}

/// Removing a repository file adds nothing: an `rm` or `unlink` never adds to the
/// package manager, whatever it removes.
pub proof fn lemma_removal_adds_nothing(c: Command)
    requires
        c.name@ == "rm"@ || c.name@ == "unlink"@,
    ensures
        spec_adds_repo(c) is None,
{
    reveal_strlit("rm");
    reveal_strlit("unlink");
    reveal_strlit("apt-key");
    reveal_strlit("add-apt-repository");
    reveal_strlit("rpm");
    reveal_strlit("dnf");
    reveal_strlit("yum");
    reveal_strlit("zypper");
    assert("rm"@[0] != "apt-key"@[0] && "rm"@[0] != "dnf"@[0] && "rm"@[0] != "yum"@[0]);
    assert("rm"@.len() != "rpm"@.len());
    assert("unlink"@[0] != "apt-key"@[0] && "unlink"@[0] != "rpm"@[0] && "unlink"@[0] != "dnf"@[0]);
    assert("unlink"@[0] != "yum"@[0] && "unlink"@[0] != "zypper"@[0]);
    assert("rm"@[0] != "zypper"@[0] && "rm"@[0] != "add-apt-repository"@[0]);
    assert("unlink"@[0] != "add-apt-repository"@[0]);
}

/// Any command other than `rm`, `unlink` and the named repository tools (`apt-key`,
/// `add-apt-repository`, `rpm`, `dnf`, `yum`, `zypper`) that writes into one of the
/// repository directories adds a package repository definition: an argument or a
/// redirection target starting with `/etc/apt/sources.list`, `/etc/apt/trusted.gpg.d`,
/// `/etc/apt/keyrings`, `/usr/share/keyrings`, `/etc/yum.repos.d`, `/etc/zypp/repos.d`
/// or `/etc/pacman.d`.
pub proof fn lemma_repository_directories_add_definitions(c: Command, t: Seq<char>)
    requires
        c.name@ != "apt-key"@ && c.name@ != "add-apt-repository"@ && c.name@ != "rpm"@,
        c.name@ != "dnf"@ && c.name@ != "yum"@ && c.name@ != "zypper"@,
        c.name@ != "rm"@ && c.name@ != "unlink"@,
        texts(c.args@).contains(t) || texts(c.redirects@).contains(t),
        has_prefix(t, "/etc/apt/sources.list"@) || has_prefix(t, "/etc/apt/trusted.gpg.d"@)
            || has_prefix(t, "/etc/apt/keyrings"@) || has_prefix(t, "/usr/share/keyrings"@)
            || has_prefix(t, "/etc/yum.repos.d"@) || has_prefix(t, "/etc/zypp/repos.d"@)
            || has_prefix(t, "/etc/pacman.d"@),
    ensures
        spec_adds_repo(c) == Some("package repository definition"@),
{
    if texts(c.args@).contains(t) {
        let i = choose|i: int| 0 <= i < texts(c.args@).len() && texts(c.args@)[i] == t;
        assert(repo_path(c.args@[i].text@));
    } else {
        let i = choose|i: int| 0 <= i < texts(c.redirects@).len() && texts(c.redirects@)[i] == t;
        assert(repo_path(c.redirects@[i].text@));
    }
}

/// A command that is none of the named repository tools and writes into none of the
/// repository directories (no argument and no redirection target starts with one of
/// them) adds nothing to the package manager.
pub proof fn lemma_other_commands_add_nothing(c: Command)
    requires
        c.name@ != "apt-key"@ && c.name@ != "add-apt-repository"@ && c.name@ != "rpm"@,
        c.name@ != "dnf"@ && c.name@ != "yum"@ && c.name@ != "zypper"@,
        forall|t: Seq<char>|
            texts(c.args@).contains(t) || texts(c.redirects@).contains(t) ==> !(#[trigger] has_prefix(
                t,
                "/etc/apt/sources.list"@,
            ) || has_prefix(t, "/etc/apt/trusted.gpg.d"@) || has_prefix(t, "/etc/apt/keyrings"@)
                || has_prefix(t, "/usr/share/keyrings"@) || has_prefix(t, "/etc/yum.repos.d"@)
                || has_prefix(t, "/etc/zypp/repos.d"@) || has_prefix(t, "/etc/pacman.d"@)),
    ensures
        spec_adds_repo(c) is None,
{
    assert forall|i: int| 0 <= i < c.args@.len() implies !repo_path(#[trigger] c.args@[i].text@) by {
        assert(texts(c.args@)[i] == c.args@[i].text@);
        assert(texts(c.args@).contains(c.args@[i].text@));
    }
    assert forall|i: int| 0 <= i < c.redirects@.len() implies !repo_path(
        #[trigger] c.redirects@[i].text@,
    ) by {
        assert(texts(c.redirects@)[i] == c.redirects@[i].text@);
        assert(texts(c.redirects@).contains(c.redirects@[i].text@));
    }
}

} // verus!
