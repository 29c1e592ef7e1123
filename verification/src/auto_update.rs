//! `auto_update`: the script writes a launcher to disk that downloads by itself every
//! time it runs, so it updates itself later without asking.

use vstd::prelude::*;
use crate::model::{Category, Detail, Finding, FlagKind, Verdict};
use crate::script::{Command, Ctx, Program, Shared};
use crate::search::{first_index, is_first, lemma_first_index, some_index};

verus! {

/// The check's name.
pub const ID: &'static str = "auto_update";

/// How serious its findings are.
pub const KIND: FlagKind = FlagKind::Red;

/// What it watches over.
pub const CATEGORY: Category = Category::Exec;

/// What it looks for.
pub const DESCRIPTION: &'static str = "Writes a program to disk (heredoc launcher) that downloads by itself when run: self-updating, never reviewed again";

/// The command `c` stands inside the written program `p`.
pub open spec fn inside(p: Program, c: Command) -> bool {
    p.span.start <= c.span.start && c.span.end <= p.span.end
}

/// Command `k` of the script is a download inside program `p`.
pub open spec fn fetch_in(shared: Shared, ctx: Ctx, p: int, k: int) -> bool {
    &&& 0 <= p < ctx.programs@.len()
    &&& 0 <= k < ctx.commands@.len()
    &&& inside(ctx.programs@[p], ctx.commands@[k])
    &&& shared.spec_downloads(ctx.commands@[k])
}

/// The downloads inside program `p`, as a property of command positions.
pub open spec fn fetches_of(shared: Shared, ctx: Ctx, p: int) -> spec_fn(int) -> bool {
    |k: int| fetch_in(shared, ctx, p, k)
}

/// The programs that contain a download, as a property of program positions.
pub open spec fn fetching_programs(shared: Shared, ctx: Ctx) -> spec_fn(int) -> bool {
    |p: int| some_index(fetches_of(shared, ctx, p))
}

/// How a written program is named in a title.
pub open spec fn program_label(target: Option<String>) -> Seq<char> {
    match target {
        Some(t) => "`"@ + t@ + "`"@,
        None => "a program"@,
    }
}

pub const AUTO_UPDATE_EXPLANATION: &'static str = "The launcher this installer writes to disk contains a network fetch, so it updates itself later without asking.";

pub const AUTO_UPDATE_FIX: &'static str = "Read the written program (the heredoc) and check what it fetches, from where, and whether that can be turned off.";

/// The finding for the first written program that downloads, located at its first download.
pub open spec fn auto_update_detail(shared: Shared, ctx: Ctx, d: Detail) -> bool {
    let p = first_index(fetching_programs(shared, ctx));
    let k = first_index(fetches_of(shared, ctx, p));
    &&& d.title@ == "installs "@ + program_label(ctx.programs@[p].target)
        + ", which downloads on its own every time it runs"@
    &&& d.explanation@ == AUTO_UPDATE_EXPLANATION@
    &&& d.fix matches Some(f) && f@ == AUTO_UPDATE_FIX@
    &&& d.span == Some(ctx.commands@[k].span)
}

/// Reports a written program that downloads on its own.
pub struct AutoUpdate {
    shared: Shared,
}

impl AutoUpdate {
    /// The shared settings the check was built with.
    pub closed spec fn shared(self) -> Shared {
        self.shared
    }

    /// A check with the given settings.
    pub fn new(shared: Shared) -> (a: AutoUpdate)
        ensures
            a.shared() == shared,
    {
        AutoUpdate { shared }
    }

    /// The first download inside program `p`, if any.
    fn first_fetch(&self, ctx: &Ctx, p: usize) -> (r: Option<usize>)
        requires
            p < ctx.programs@.len(),
        ensures
            match r {
                Some(k) => is_first(fetches_of(self.shared(), *ctx, p as int), k as int),
                None => !some_index(fetches_of(self.shared(), *ctx, p as int)),
            },
    {
        let ghost f = fetches_of(self.shared, *ctx, p as int);
        let program = &ctx.programs[p];
        let mut k: usize = 0;
        while k < ctx.commands.len()
            invariant
                p < ctx.programs@.len(),
                *program == ctx.programs@[p as int],
                f == fetches_of(self.shared, *ctx, p as int),
                k <= ctx.commands@.len(),
                forall|j: int| 0 <= j < k ==> !#[trigger] f(j),
            decreases ctx.commands.len() - k,
        {
            let c = &ctx.commands[k];
            if program.span.start <= c.span.start && c.span.end <= program.span.end
                && self.shared.downloads(c) {
                return Some(k);
            }
            k = k + 1;
        }
        None
    }

    /// Reports the first written program that downloads, at its first download.
    pub fn finalize(&mut self, ctx: &Ctx) -> (v: Verdict)
        ensures
            final(self).shared() == old(self).shared(),
            some_index(fetching_programs(old(self).shared(), *ctx)) ==> (v matches Verdict::Red(d)
                && auto_update_detail(old(self).shared(), *ctx, d)),
            !some_index(fetching_programs(old(self).shared(), *ctx)) ==> v is Ignore,
    {
        let ghost fp = fetching_programs(self.shared, *ctx);
        let mut p: usize = 0;
        while p < ctx.programs.len()
            invariant
                fp == fetching_programs(self.shared, *ctx),
                p <= ctx.programs@.len(),
                forall|q: int| 0 <= q < p ==> !#[trigger] fp(q),
            decreases ctx.programs.len() - p,
        {
            if let Some(k) = self.first_fetch(ctx, p) {
                proof {
                    assert(is_first(fp, p as int));
                    lemma_first_index(fp, p as int);
                    lemma_first_index(fetches_of(self.shared, *ctx, p as int), k as int);
                }
                let program = &ctx.programs[p];
                let mut title = String::from_str("installs ");
                match &program.target {
                    Some(t) => {
                        title.append("`");
                        title.append(t.as_str());
                        title.append("`");
                    },
                    None => {
                        title.append("a program");
                    },
                }
                assert(title@ =~= "installs "@ + program_label(program.target));
                title.append(", which downloads on its own every time it runs");
                return Verdict::Red(
                    Detail::new(title, String::from_str(AUTO_UPDATE_EXPLANATION)).fix(
                        String::from_str(AUTO_UPDATE_FIX),
                    ).at(ctx.commands[k].span),
                );
            }
            p = p + 1;
        }
        proof {
            assert forall|q: int| 0 <= q implies !#[trigger] fp(q) by {
                if q >= ctx.programs@.len() {
                    if some_index(fetches_of(self.shared, *ctx, q)) {
                        let k = choose|k: int| 0 <= k && #[trigger] fetches_of(self.shared, *ctx, q)(k);
                        assert(!fetch_in(self.shared, *ctx, q, k));
                    }
                }
            }
        }
        Verdict::Ignore
    }
}

impl AutoUpdate {
    /// Runs the check over a whole script. A script that writes a program that
    /// downloads gets exactly one finding; any other script gets none.
    pub fn analyze(&mut self, ctx: &Ctx) -> (findings: Vec<Finding>)
        ensures
            final(self).shared() == old(self).shared(),
            !some_index(fetching_programs(old(self).shared(), *ctx)) ==> findings@.len() == 0,
            some_index(fetching_programs(old(self).shared(), *ctx)) ==> {
                &&& findings@.len() == 1
                &&& findings@[0].kind is Red
                &&& auto_update_detail(old(self).shared(), *ctx, findings@[0].detail)
            },
    {
        let mut findings: Vec<Finding> = Vec::new();
        if let Some(f) = self.finalize(ctx).into_finding() {
            findings.push(f);
        }
        findings
    }
}

/// The installer's own downloads are not a program's: where no download of the script
/// lies within the span of a written program (starting at or after the program's start
/// and ending at or before its end), no written program fetches, whatever the script
/// downloads outside them.
pub proof fn lemma_outside_downloads_are_not_the_programs(shared: Shared, ctx: Ctx)
    requires
        forall|p: int, k: int|
            0 <= p < ctx.programs@.len() && 0 <= k < ctx.commands@.len()
                && shared.spec_downloads(#[trigger] ctx.commands@[k]) ==> !(
            #[trigger] ctx.programs@[p].span.start <= ctx.commands@[k].span.start
                && ctx.commands@[k].span.end <= ctx.programs@[p].span.end),
    ensures
        !some_index(fetching_programs(shared, ctx)),
{
    if some_index(fetching_programs(shared, ctx)) {
        let p = choose|p: int| 0 <= p && #[trigger] fetching_programs(shared, ctx)(p);
        let k = choose|k: int| 0 <= k && #[trigger] fetches_of(shared, ctx, p)(k);
        assert(fetch_in(shared, ctx, p, k));
        assert(shared.spec_downloads(ctx.commands@[k]));
    }
}

/// A download within the span of a written program makes that program one that
/// fetches.
pub proof fn lemma_inside_downloads_are_the_programs(shared: Shared, ctx: Ctx, p: int, k: int)
    requires
        0 <= p < ctx.programs@.len(),
        0 <= k < ctx.commands@.len(),
        shared.spec_downloads(ctx.commands@[k]),
        ctx.programs@[p].span.start <= ctx.commands@[k].span.start,
        ctx.commands@[k].span.end <= ctx.programs@[p].span.end,
    ensures
        some_index(fetching_programs(shared, ctx)),
{
    assert(fetches_of(shared, ctx, p)(k));
    assert(fetching_programs(shared, ctx)(p));
}

} // verus!
