//! the order in which a launch confines itself, and the syscalls the
//! baseline seccomp filter refuses. the order NNP -> landlock -> drop caps
//! -> seccomp makes every restriction inherit across execve

use crate::api::err::{Error, ErrorView, Result, result_view};
use crate::api::sandbox::{Sandbox, Seccomp};
use crate::text::concat;
use seccompiler::{BpfProgram, SeccompAction, SeccompFilter, TargetArch};
use vstd::prelude::*;

verus! {

/// one confinement step of a launch, applied after setns, before exec
#[derive(Clone, Copy, Debug, PartialEq, Eq, Structural)]
pub enum SandboxStep {
    /// PR_SET_NO_NEW_PRIVS: landlock requires it and it stops setuid
    /// escalation via execve
    NoNewPrivs,
    /// a landlock ruleset over the read and write subtrees
    Landlock,
    /// reduce every capability set to the keep-list
    DropCaps,
    /// the baseline seccomp filter
    SeccompBaseline,
}

/// the steps that confine a launch under `sb`, in order: no_new_privs
/// always, landlock only when paths are listed, the capability drop always
/// (an empty keep-list drops every capability), and the filter only when
/// asked for
pub open spec fn plan_of(sb: Sandbox) -> Seq<SandboxStep> {
    let a = seq![SandboxStep::NoNewPrivs];
    let b = if sb.read@.len() > 0 || sb.write@.len() > 0 {
        seq![SandboxStep::Landlock]
    } else {
        Seq::<SandboxStep>::empty()
    };
    let c = seq![SandboxStep::DropCaps];
    let d = if sb.seccomp == Seccomp::Baseline {
        seq![SandboxStep::SeccompBaseline]
    } else {
        Seq::<SandboxStep>::empty()
    };
    a + b + c + d
}

pub fn sandbox_plan(sb: &Sandbox) -> (steps: Vec<SandboxStep>)
    ensures
        steps@ == plan_of(*sb),
{
    let mut steps: Vec<SandboxStep> = Vec::new();
    steps.push(SandboxStep::NoNewPrivs);
    if sb.read.len() > 0 || sb.write.len() > 0 {
        steps.push(SandboxStep::Landlock);
    }
    steps.push(SandboxStep::DropCaps);
    match sb.seccomp {
        Seccomp::Off => {},
        Seccomp::Baseline => {
            steps.push(SandboxStep::SeccompBaseline);
        },
    }
    assert(steps@ =~= plan_of(*sb));
    steps
}

/// Privileges are always shed, and the filter, when there is one, comes
/// last, after the capability drop it guards.
pub proof fn law_plan_order(sb: Sandbox)
    ensures
        plan_of(sb)[0] == SandboxStep::NoNewPrivs,
        plan_of(sb).contains(SandboxStep::DropCaps),
        sb.seccomp == Seccomp::Baseline ==> plan_of(sb).last() == SandboxStep::SeccompBaseline
            && plan_of(sb)[plan_of(sb).len() - 2] == SandboxStep::DropCaps,
        sb.seccomp == Seccomp::Off ==> plan_of(sb).last() == SandboxStep::DropCaps,
{
    let p = plan_of(sb);
    if sb.read@.len() > 0 || sb.write@.len() > 0 {
        assert(p[2] == SandboxStep::DropCaps);
    } else {
        assert(p[1] == SandboxStep::DropCaps);
    }
}

/// A launch is confined to its paths exactly when its sandbox lists a read
/// or a write path, and filtered exactly when it asks for the baseline
/// filter; no-new-privs and the capability drop happen on every launch,
/// each step once, and the ruleset comes after no-new-privs and before the
/// capability drop.
pub proof fn law_plan_steps(sb: Sandbox)
    ensures
        plan_of(sb).contains(SandboxStep::Landlock) <==> (sb.read@.len() > 0 || sb.write@.len() > 0),
        plan_of(sb).contains(SandboxStep::SeccompBaseline) <==> sb.seccomp == Seccomp::Baseline,
        plan_of(sb).contains(SandboxStep::NoNewPrivs),
        plan_of(sb).contains(SandboxStep::DropCaps),
        plan_of(sb).len() == 2 + (if sb.read@.len() > 0 || sb.write@.len() > 0 {
            1int
        } else {
            0int
        }) + (if sb.seccomp == Seccomp::Baseline {
            1int
        } else {
            0int
        }),
        forall|i: int, j: int|
            0 <= i < plan_of(sb).len() && 0 <= j < plan_of(sb).len() && #[trigger] plan_of(sb)[i]
                == SandboxStep::Landlock && #[trigger] plan_of(sb)[j] == SandboxStep::DropCaps
                ==> 0 < i < j,
{
    let p = plan_of(sb);
    let paths = sb.read@.len() > 0 || sb.write@.len() > 0;
    let filtered = sb.seccomp == Seccomp::Baseline;
    let n: int = if paths { 1 } else { 0 };
    assert(p.len() == 2 + n + if filtered { 1int } else { 0int });
    assert(p[0] == SandboxStep::NoNewPrivs);
    assert(p[1 + n] == SandboxStep::DropCaps);
    assert(paths ==> p[1] == SandboxStep::Landlock);
    assert(filtered ==> p[2 + n] == SandboxStep::SeccompBaseline);
    assert forall|k: int| 0 <= k < p.len() implies (#[trigger] p[k] == SandboxStep::Landlock
        ==> paths) && (p[k] == SandboxStep::SeccompBaseline ==> filtered) by {
        if k == 0 {
        } else if paths && k == 1 {
        } else if k == 1 + n {
        } else {
            assert(filtered && k == 2 + n);
        }
    }
}

/// the cpus the baseline filter has syscall numbers for
#[derive(Clone, Copy, Debug, PartialEq, Eq, Structural)]
pub enum SeccompArch {
    X86_64,
    Aarch64,
}

/// one row per syscall covers x86_64 and aarch64 so the two arches cannot
/// drift apart: (name, x86_64 number, aarch64 number). the calls
/// reconfigure the process or load kernel code
pub open spec fn deny_rows() -> Seq<(Seq<char>, i64, i64)> {
    seq![
        ("mount"@, 165i64, 40i64),
        ("umount2"@, 166i64, 39i64),
        ("kexec_load"@, 246i64, 104i64),
        ("init_module"@, 175i64, 105i64),
        ("finit_module"@, 313i64, 273i64),
        ("delete_module"@, 176i64, 106i64),
    ]
}

/// the number of a row on `arch`
pub open spec fn number_on(row: (Seq<char>, i64, i64), arch: SeccompArch) -> i64 {
    match arch {
        SeccompArch::X86_64 => row.1,
        SeccompArch::Aarch64 => row.2,
    }
}

/// the deny table, row by row
pub fn deny_table() -> (rows: Vec<(&'static str, i64, i64)>)
    ensures
        rows@.len() == deny_rows().len(),
        forall|i: int|
            0 <= i < rows@.len() ==> (#[trigger] rows@[i].0@, rows@[i].1, rows@[i].2)
                == deny_rows()[i],
{
    let rows = vec![
        ("mount", 165i64, 40i64),
        ("umount2", 166i64, 39i64),
        ("kexec_load", 246i64, 104i64),
        ("init_module", 175i64, 105i64),
        ("finit_module", 313i64, 273i64),
        ("delete_module", 176i64, 106i64),
    ];
    assert forall|i: int|
        0 <= i < rows@.len() implies (#[trigger] rows@[i].0@, rows@[i].1, rows@[i].2)
        == deny_rows()[i] by {
        if i == 0 {
        } else if i == 1 {
        } else if i == 2 {
        } else if i == 3 {
        } else if i == 4 {
        } else {
        }
    }
    rows
}

/// the syscall numbers the baseline filter refuses on `arch`, in table order
pub fn deny_list(arch: SeccompArch) -> (nrs: Vec<i64>)
    ensures
        nrs@.len() == deny_rows().len(),
        forall|i: int| 0 <= i < nrs@.len() ==> #[trigger] nrs@[i] == number_on(deny_rows()[i], arch),
{
    let rows = deny_table();
    let mut nrs: Vec<i64> = Vec::new();
    let mut i: usize = 0;
    while i < rows.len()
        invariant
            rows@.len() == deny_rows().len(),
            forall|k: int|
                0 <= k < rows@.len() ==> (#[trigger] rows@[k].0@, rows@[k].1, rows@[k].2)
                    == deny_rows()[k],
            i <= rows@.len(),
            nrs@.len() == i,
            forall|k: int| 0 <= k < i ==> #[trigger] nrs@[k] == number_on(deny_rows()[k], arch),
        decreases rows@.len() - i,
    {
        let (_, x, a) = rows[i];
        proof {
            assert((rows@[i as int].0@, rows@[i as int].1, rows@[i as int].2) == deny_rows()[i as int]);
        }
        match arch {
            SeccompArch::X86_64 => nrs.push(x),
            SeccompArch::Aarch64 => nrs.push(a),
        }
        i += 1;
    }
    nrs
}

/// On each arch every row has a positive number of its own: the filter
/// refuses something, and no two rows collapse into one syscall.
pub proof fn law_deny_numbers_distinct(arch: SeccompArch)
    ensures
        deny_rows().len() > 0,
        forall|i: int| 0 <= i < deny_rows().len() ==> number_on(#[trigger] deny_rows()[i], arch) > 0,
        forall|i: int, j: int|
            0 <= i < j < deny_rows().len() ==> number_on(#[trigger] deny_rows()[i], arch)
                != number_on(#[trigger] deny_rows()[j], arch),
{
}


/// one BPF instruction as plain values: code, jump-if-true, jump-if-false
/// and the immediate operand
pub type BpfInsn = (u16, u8, u8, u32);

/// the step of filter preparation that failed
#[derive(Clone, Copy, Debug, PartialEq, Eq, Structural)]
pub enum FilterStage {
    /// assembling the filter from its rules
    Build,
    /// compiling the filter to BPF
    Compile,
}

/// the numbers the baseline refuses on `arch`, in table order
pub open spec fn deny_numbers(arch: SeccompArch) -> Seq<i64> {
    Seq::new(deny_rows().len(), |i: int| number_on(deny_rows()[i], arch))
}

/// what seccompiler makes of a filter that allows every syscall but those
/// numbered `nrs`, which fail with errno 1, for `arch`: the BPF program,
/// or the failing step and its message
pub uninterp spec fn deny_program(arch: SeccompArch, nrs: Seq<i64>) -> std::result::Result<
    Seq<BpfInsn>,
    (FilterStage, Seq<char>),
>;

/// `SeccompFilter::new` over the rules "each of `nrs`, unconditionally",
/// with `Allow` on mismatch and `Errno(1)` on match, then
/// `BpfProgram::try_from`. The program is named, not restated. `new` only
/// fails when the two actions are equal, which these are not, so a failure
/// can only come from compiling. Each number becomes a `u32` inside
/// seccompiler, which panics on one out of that range, so the numbers are
/// required to fit.
#[verifier::external_body]
fn compile_deny_filter(arch: SeccompArch, nrs: &[i64]) -> (r: std::result::Result<
    Vec<BpfInsn>,
    (FilterStage, String),
>)
    requires
        forall|i: int| 0 <= i < nrs@.len() ==> 0 <= #[trigger] nrs@[i] <= u32::MAX,
    ensures
        match r {
            Ok(p) => deny_program(arch, nrs@) == Ok::<Seq<BpfInsn>, (FilterStage, Seq<char>)>(p@),
            Err((s, m)) => deny_program(arch, nrs@) == Err::<Seq<BpfInsn>, (FilterStage, Seq<char>)>((s, m@)),
        },
        r matches Err((s, _)) ==> s == FilterStage::Compile,
{
    let cpu = match arch {
        SeccompArch::X86_64 => TargetArch::x86_64,
        SeccompArch::Aarch64 => TargetArch::aarch64,
    };
    let rules = nrs.iter().map(|nr| (*nr, vec![])).collect();
    let f = SeccompFilter::new(rules, SeccompAction::Allow, SeccompAction::Errno(1), cpu)
        .map_err(|e| (FilterStage::Build, e.to_string()))?;
    let p: BpfProgram = f.try_into().map_err(|e: seccompiler::BackendError| (FilterStage::Compile, e.to_string()))?;
    Ok(p.iter().map(|i| (i.code, i.jt, i.jf, i.k)).collect())
}

/// the error a failed step is reported as
pub open spec fn filter_error(stage: FilterStage, m: Seq<char>) -> ErrorView {
    match stage {
        FilterStage::Build => ErrorView::Io("seccomp build: "@ + m),
        FilterStage::Compile => ErrorView::Io("seccomp compile: "@ + m),
    }
}

pub open spec fn program_outcome(r: std::result::Result<Seq<BpfInsn>, (FilterStage, Seq<char>)>) -> std::result::Result<Seq<BpfInsn>, ErrorView> {
    match r {
        Ok(p) => Ok(p),
        Err((s, m)) => Err(filter_error(s, m)),
    }
}

/// the library's answer for what filter preparation returned
pub fn program_from(r: std::result::Result<Vec<BpfInsn>, (FilterStage, String)>) -> (res: Result<Vec<BpfInsn>>)
    ensures
        result_view(res) == program_outcome(match r {
            Ok(p) => Ok::<Seq<BpfInsn>, (FilterStage, Seq<char>)>(p@),
            Err((s, m)) => Err::<Seq<BpfInsn>, (FilterStage, Seq<char>)>((s, m@)),
        }),
{
    match r {
        Ok(p) => Ok(p),
        Err((FilterStage::Build, m)) => {
            let msg = concat("seccomp build: ", m.as_str());
            proof {
                reveal_strlit("seccomp build: ");
            }
            Err(Error::Io(msg))
        },
        Err((FilterStage::Compile, m)) => {
            let msg = concat("seccomp compile: ", m.as_str());
            proof {
                reveal_strlit("seccomp compile: ");
            }
            Err(Error::Io(msg))
        },
    }
}

/// the baseline filter for `arch`, compiled to BPF and ready to apply
pub fn baseline_program(arch: SeccompArch) -> (res: Result<Vec<BpfInsn>>)
    ensures
        result_view(res) == program_outcome(deny_program(arch, deny_numbers(arch))),
{
    let nrs = deny_list(arch);
    proof {
        assert(nrs@ =~= deny_numbers(arch));
        assert forall|i: int| 0 <= i < nrs@.len() implies 0 <= #[trigger] nrs@[i] <= u32::MAX by {
            assert(0 <= i < 6);
            if i == 0 {
            } else if i == 1 {
            } else if i == 2 {
            } else if i == 3 {
            } else if i == 4 {
            } else {
            }
        }
    }
    program_from(compile_deny_filter(arch, nrs.as_slice()))
}

} // verus!
