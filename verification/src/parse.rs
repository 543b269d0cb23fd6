//! Recovery of task identities from the traced application's source:
//! locating the application declaration in the token stream, replaying
//! the instrumentation pass's id assignment over the item tree, and
//! binding hardware tasks to their exception names and numbers.

use vstd::prelude::*;

use crate::assoc::{
    distinct_keys, kv_map, lemma_kv_map_absent, lemma_kv_map_last_match, lemma_kv_map_push,
    lemma_kv_map_update,
};
use crate::recovery::{exc_pairs_of, int_pairs_of, sw_pairs_of, TaskPath, TaskResolveMaps};
use crate::text::{clone_strings, str_eq};
use vstd::pervasive::VecAdditionalExecFns;
use vstd::string::StringExecFns;

verus! {

broadcast use
    vstd::seq::axiom_seq_index_decreases,
    vstd::seq::axiom_seq_subrange_decreases,
    vstd::std_specs::vec::axiom_vec_index_decreases,
    vstd::std_specs::vec::axiom_vec_decreases_to_view,
;

/// A source token: a delimited group, or any single token rendered as
/// text.
pub enum Token {
    Group { tokens: Vec<Token> },
    Word { text: String },
}

/// Why resolution is abandoned before any map is produced.
#[derive(Debug)]
pub enum ResolveError {
    /// No block in the token stream leads with the application keyword.
    NoAppBlock,
    /// The application block does not carry an argument group.
    BadAppBlock,
    /// The application declares no device argument.
    MissingDeviceArg,
    /// The device argument is empty or has more than two segments.
    BadDeviceArg,
    /// Peripheral interrupts are bound but their numbers could not be
    /// recovered from the hardware-description crate.
    InterruptResolutionFailed,
}

/// A group whose leading token is the application keyword.
pub open spec fn is_app_group(t: Token) -> bool {
    match t {
        Token::Group { tokens } => tokens@.len() >= 1 && match tokens@[0] {
            Token::Word { text } => text@ == "app"@,
            _ => false,
        },
        _ => false,
    }
}

/// The argument group carried by an application block, when present.
pub open spec fn app_group_args(t: Token) -> Option<Seq<Token>> {
    match t {
        Token::Group { tokens } => if tokens@.len() >= 2 {
            match tokens@[1] {
                Token::Group { tokens: args } => Some(args@),
                _ => None,
            }
        } else {
            None
        },
        _ => None,
    }
}

/// `s[i]` is the first application block of the stream.
pub open spec fn first_app_group_at(s: Seq<Token>, i: int) -> bool {
    &&& 0 <= i < s.len()
    &&& is_app_group(s[i])
    &&& forall|j: int| 0 <= j < i ==> !is_app_group(#[trigger] s[j])
}

/// The application's argument tokens and body tokens.
pub struct AppTokens {
    pub args: Vec<Token>,
    pub body: Vec<Token>,
}

fn check_app_group(t: &Token) -> (r: bool)
    ensures
        r == is_app_group(*t),
{
    match t {
        Token::Group { tokens } => {
            if tokens.len() >= 1 {
                match &tokens[0] {
                    Token::Word { text } => str_eq(text.as_str(), "app"),
                    _ => false,
                }
            } else {
                false
            }
        },
        _ => false,
    }
}

/// Skips every token ahead of the first application block, then splits
/// that block into its argument group and the remaining body tokens,
/// exactly as the instrumentation pass sees them.
pub fn split_app(tokens: Vec<Token>) -> (r: Result<AppTokens, ResolveError>)
    ensures
        match r {
            Ok(at) => exists|i: int|
                {
                    &&& #[trigger] first_app_group_at(tokens@, i)
                    &&& app_group_args(tokens@[i]) == Some(at.args@)
                    &&& at.body@ == tokens@.subrange(i + 1, tokens@.len() as int)
                },
            Err(e) => match e {
                ResolveError::NoAppBlock => forall|j: int|
                    0 <= j < tokens@.len() ==> !is_app_group(#[trigger] tokens@[j]),
                ResolveError::BadAppBlock => exists|i: int|
                    {
                        &&& #[trigger] first_app_group_at(tokens@, i)
                        &&& app_group_args(tokens@[i]) is None
                    },
                _ => false,
            },
        },
{
    let mut toks = tokens;
    let mut i: usize = 0;
    let mut found = false;
    while i < toks.len() && !found
        invariant
            toks == tokens,
            i <= toks@.len(),
            forall|j: int| 0 <= j < i ==> !is_app_group(#[trigger] tokens@[j]),
            found ==> i < toks@.len() && is_app_group(tokens@[i as int]),
        decreases toks@.len() - i + (if found {
            0int
        } else {
            1int
        }),
    {
        if check_app_group(&toks[i]) {
            found = true;
        } else {
            i += 1;
        }
    }
    if !found {
        return Err(ResolveError::NoAppBlock);
    }
    proof {
        assert(first_app_group_at(tokens@, i as int));
    }
    let ghost gi: int = i as int;
    let mut tail = toks.split_off(i);
    let g = tail.remove(0);
    proof {
        assert(g == tokens@[gi]);
        assert(tail@ =~= tokens@.subrange(gi + 1, tokens@.len() as int));
    }
    match g {
        Token::Group { tokens: mut gt } => {
            if gt.len() >= 2 {
                let second = gt.remove(1);
                match second {
                    Token::Group { tokens: args } => {
                        proof {
                            assert(app_group_args(tokens@[gi]) == Some(args@));
                        }
                        Ok(AppTokens { args, body: tail })
                    },
                    _ => {
                        proof {
                            assert(app_group_args(tokens@[gi]) is None);
                        }
                        Err(ResolveError::BadAppBlock)
                    },
                }
            } else {
                proof {
                    assert(app_group_args(tokens@[gi]) is None);
                }
                Err(ResolveError::BadAppBlock)
            }
        },
        _ => {
            proof {
                assert(false);
            }
            Err(ResolveError::BadAppBlock)
        },
    }
}

/// An item of the application body, reduced to what id assignment
/// reads: functions (with their trace marker and nested items, in
/// declaration order), modules, and everything else.
pub enum AppItem {
    Function { name: String, traced: bool, items: Vec<AppItem> },
    Module { name: String, items: Vec<AppItem> },
    Other,
}

/// The paths of the trace-marked functions under one item, in
/// depth-first declaration order — the exact order in which the
/// instrumentation pass assigns ids.
pub open spec fn item_trace_paths(item: AppItem, prefix: Seq<Seq<char>>) -> Seq<Seq<Seq<char>>>
    decreases item,
{
    match item {
        AppItem::Function { name, traced, items } => (if traced {
            seq![prefix.push(name@)]
        } else {
            Seq::<Seq<Seq<char>>>::empty()
        }) + items_trace_paths(items@, prefix.push(name@)),
        AppItem::Module { name, items } => items_trace_paths(items@, prefix.push(name@)),
        AppItem::Other => Seq::empty(),
    }
}

/// The paths of the trace-marked functions under a list of items.
pub open spec fn items_trace_paths(items: Seq<AppItem>, prefix: Seq<Seq<char>>) -> Seq<
    Seq<Seq<char>>,
>
    decreases items,
{
    if items.len() == 0 {
        Seq::empty()
    } else {
        item_trace_paths(items[0], prefix) + items_trace_paths(
            items.subrange(1, items.len() as int),
            prefix,
        )
    }
}

/// Depth-first enumeration splits at any point of the item list.
pub proof fn lemma_items_trace_paths_split(items: Seq<AppItem>, prefix: Seq<Seq<char>>, j: int)
    requires
        0 <= j <= items.len(),
    ensures
        items_trace_paths(items, prefix) == items_trace_paths(items.subrange(0, j), prefix)
            + items_trace_paths(items.subrange(j, items.len() as int), prefix),
    decreases j,
{
    if j == 0 {
        assert(items.subrange(0, 0) =~= Seq::<AppItem>::empty());
        assert(items.subrange(0, items.len() as int) =~= items);
        assert(items_trace_paths(Seq::<AppItem>::empty(), prefix) == Seq::<Seq<Seq<char>>>::empty());
        assert(items_trace_paths(items, prefix) =~= items_trace_paths(Seq::empty(), prefix)
            + items_trace_paths(items, prefix));
    } else {
        let rest = items.subrange(1, items.len() as int);
        lemma_items_trace_paths_split(rest, prefix, j - 1);
        assert(items.subrange(0, j).subrange(1, j) =~= rest.subrange(0, j - 1));
        assert(items.subrange(0, j)[0] == items[0]);
        assert(items.subrange(j, items.len() as int) =~= rest.subrange(
            j - 1,
            rest.len() as int,
        ));
        assert(items_trace_paths(items, prefix) =~= items_trace_paths(items.subrange(0, j), prefix)
            + items_trace_paths(items.subrange(j, items.len() as int), prefix));
    }
}

/// Extending the enumerated prefix of the item list by one item
/// appends that item's paths.
pub proof fn lemma_items_trace_paths_step(items: Seq<AppItem>, prefix: Seq<Seq<char>>, j: int)
    requires
        0 <= j < items.len(),
    ensures
        items_trace_paths(items.subrange(0, j + 1), prefix) == items_trace_paths(
            items.subrange(0, j),
            prefix,
        ) + item_trace_paths(items[j], prefix),
    decreases j,
{
    if j == 0 {
        assert(items.subrange(0, 1)[0] == items[0]);
        assert(items.subrange(0, 1).subrange(1, 1) =~= Seq::<AppItem>::empty());
        assert(items.subrange(0, 0) =~= Seq::<AppItem>::empty());
        assert(items_trace_paths(Seq::<AppItem>::empty(), prefix) == Seq::<Seq<Seq<char>>>::empty());
        assert(items_trace_paths(items.subrange(0, 1), prefix) =~= items_trace_paths(
            items.subrange(0, 0),
            prefix,
        ) + item_trace_paths(items[0], prefix));
    } else {
        let rest = items.subrange(1, items.len() as int);
        lemma_items_trace_paths_step(rest, prefix, j - 1);
        assert(items.subrange(0, j + 1).subrange(1, j + 1) =~= rest.subrange(0, j));
        assert(items.subrange(0, j).subrange(1, j) =~= rest.subrange(0, j - 1));
        assert(items.subrange(0, j + 1)[0] == items[0]);
        assert(items.subrange(0, j)[0] == items[0]);
        assert(rest[j - 1] == items[j]);
        assert(items_trace_paths(items.subrange(0, j + 1), prefix) =~= items_trace_paths(
            items.subrange(0, j),
            prefix,
        ) + item_trace_paths(items[j], prefix));
    }
}

/// Every recorded id is the entry's position: ids are assigned by a
/// counter that starts at zero and advances once per marked function.
pub open spec fn ids_are_positions(s: Seq<(u32, TaskPath)>) -> bool {
    forall|k: int| 0 <= k < s.len() ==> (#[trigger] s[k]).0 == k
}

/// The recorded paths, in recording order.
pub open spec fn sw_paths_of_assocs(s: Seq<(u32, TaskPath)>) -> Seq<Seq<Seq<char>>> {
    Seq::new(s.len(), |k: int| s[k].1@)
}

fn visit_item(item: &AppItem, ctx: &mut Vec<String>, assocs: &mut Vec<(u32, TaskPath)>)
    requires
        ids_are_positions(old(assocs)@),
        old(assocs)@.len() + item_trace_paths(*item, old(ctx).deep_view()).len() <= u32::MAX,
    ensures
        final(ctx).deep_view() == old(ctx).deep_view(),
        final(assocs)@.subrange(0, old(assocs)@.len() as int) == old(assocs)@,
        sw_paths_of_assocs(final(assocs)@) == sw_paths_of_assocs(old(assocs)@)
            + item_trace_paths(*item, old(ctx).deep_view()),
        ids_are_positions(final(assocs)@),
    decreases *item,
{
    let ghost prefix = old(ctx).deep_view();
    let ghost a0 = old(assocs)@;
    match item {
        AppItem::Function { name, traced, items } => {
            let ghost own: Seq<Seq<Seq<char>>> = if *traced {
                seq![prefix.push(name@)]
            } else {
                Seq::empty()
            };
            proof {
                assert(item_trace_paths(*item, prefix) == own + items_trace_paths(
                    items@,
                    prefix.push(name@),
                ));
            }
            ctx.push(name.clone());
            proof {
                assert(ctx.deep_view() =~= prefix.push(name@));
            }
            if *traced {
                let id = assocs.len() as u32;
                assocs.push((id, TaskPath { segments: clone_strings(ctx) }));
                proof {
                    assert(sw_paths_of_assocs(assocs@) =~= sw_paths_of_assocs(a0) + own);
                    assert(assocs@.subrange(0, a0.len() as int) =~= a0);
                    assert(ids_are_positions(assocs@));
                }
            }
            let ghost a1 = assocs@;
            visit_items(items, ctx, assocs);
            proof {
                assert(sw_paths_of_assocs(a1) == sw_paths_of_assocs(a0) + own);
                assert(sw_paths_of_assocs(assocs@) =~= sw_paths_of_assocs(a0)
                    + item_trace_paths(*item, prefix));
                assert(assocs@.subrange(0, a0.len() as int) =~= a0);
            }
            let ghost mid = ctx.deep_view();
            let ghost midvec = ctx@;
            let _ = ctx.pop();
            proof {
                assert(mid.len() == midvec.len());
                assert(ctx@ =~= midvec.subrange(0, midvec.len() - 1));
                assert forall|k: int| 0 <= k < ctx@.len() implies ctx.deep_view()[k]
                    == prefix[k] by {
                    assert(ctx@[k] == midvec[k]);
                    assert(mid[k] == midvec[k].deep_view());
                    assert(mid[k] == prefix.push(name@)[k]);
                }
                assert(ctx.deep_view() =~= prefix);
            }
        },
        AppItem::Module { name, items } => {
            proof {
                assert(item_trace_paths(*item, prefix) == items_trace_paths(
                    items@,
                    prefix.push(name@),
                ));
            }
            ctx.push(name.clone());
            proof {
                assert(ctx.deep_view() =~= prefix.push(name@));
            }
            visit_items(items, ctx, assocs);
            let ghost mid = ctx.deep_view();
            let ghost midvec = ctx@;
            let _ = ctx.pop();
            proof {
                assert(mid.len() == midvec.len());
                assert(ctx@ =~= midvec.subrange(0, midvec.len() - 1));
                assert forall|k: int| 0 <= k < ctx@.len() implies ctx.deep_view()[k]
                    == prefix[k] by {
                    assert(ctx@[k] == midvec[k]);
                    assert(mid[k] == midvec[k].deep_view());
                    assert(mid[k] == prefix.push(name@)[k]);
                }
                assert(ctx.deep_view() =~= prefix);
            }
        },
        AppItem::Other => {
            proof {
                assert(sw_paths_of_assocs(assocs@) =~= sw_paths_of_assocs(a0)
                    + item_trace_paths(*item, prefix));
                assert(assocs@.subrange(0, a0.len() as int) =~= a0);
            }
        },
    }
}

fn visit_items(items: &Vec<AppItem>, ctx: &mut Vec<String>, assocs: &mut Vec<(u32, TaskPath)>)
    requires
        ids_are_positions(old(assocs)@),
        old(assocs)@.len() + items_trace_paths(items@, old(ctx).deep_view()).len() <= u32::MAX,
    ensures
        final(ctx).deep_view() == old(ctx).deep_view(),
        final(assocs)@.subrange(0, old(assocs)@.len() as int) == old(assocs)@,
        sw_paths_of_assocs(final(assocs)@) == sw_paths_of_assocs(old(assocs)@)
            + items_trace_paths(items@, old(ctx).deep_view()),
        ids_are_positions(final(assocs)@),
    decreases *items,
{
    let ghost prefix = old(ctx).deep_view();
    let ghost a0 = old(assocs)@;
    let ghost base = old(assocs)@.len() as int;
    let mut j: usize = 0;
    while j < items.len()
        invariant
            ids_are_positions(assocs@),
            j <= items@.len(),
            ctx.deep_view() == prefix,
            base == a0.len(),
            base + items_trace_paths(items@, prefix).len() <= u32::MAX,
            assocs@.subrange(0, base) == a0,
            sw_paths_of_assocs(assocs@) == sw_paths_of_assocs(a0) + items_trace_paths(
                items@.subrange(0, j as int),
                prefix,
            ),
        decreases items@.len() - j,
    {
        proof {
            lemma_items_trace_paths_split(items@, prefix, j as int);
            lemma_items_trace_paths_step(items@, prefix, j as int);
            assert(items@.subrange(j as int, items@.len() as int)[0] == items@[j as int]);
            assert(items@.subrange(j as int, items@.len() as int).subrange(
                1,
                items@.len() - j as int,
            ) =~= items@.subrange(j as int + 1, items@.len() as int));
            assert(items_trace_paths(items@.subrange(j as int, items@.len() as int), prefix)
                == item_trace_paths(items@[j as int], prefix) + items_trace_paths(
                items@.subrange(j as int + 1, items@.len() as int),
                prefix,
            ));
            assert(sw_paths_of_assocs(assocs@).len() == assocs@.len());
            assert(sw_paths_of_assocs(a0).len() == a0.len());
            assert(sw_paths_of_assocs(assocs@).len() == sw_paths_of_assocs(a0).len()
                + items_trace_paths(items@.subrange(0, j as int), prefix).len());
            assert(assocs@.len() == a0.len() + items_trace_paths(
                items@.subrange(0, j as int),
                prefix,
            ).len());
            assert(assocs@.len() + item_trace_paths(items@[j as int], prefix).len()
                <= u32::MAX);
        }
        let ghost pre = assocs@;
        visit_item(&items[j], ctx, assocs);
        proof {
            assert(assocs@.subrange(0, pre.len() as int) == pre);
            assert(pre.subrange(0, base) == a0);
            assert(sw_paths_of_assocs(assocs@).len() == sw_paths_of_assocs(pre).len()
                + item_trace_paths(items@[j as int], prefix).len());
            assert(pre.len() <= assocs@.len());
            assert forall|x: int| 0 <= x < base implies #[trigger] assocs@.subrange(0, base)[x]
                == pre.subrange(0, base)[x] by {
                assert(pre[x] == assocs@.subrange(0, pre.len() as int)[x]);
                assert(assocs@.subrange(0, pre.len() as int)[x] == assocs@[x]);
                assert(assocs@.subrange(0, base)[x] == assocs@[x]);
                assert(pre.subrange(0, base)[x] == pre[x]);
            }
            assert(assocs@.subrange(0, base) =~= pre.subrange(0, base));
            assert(sw_paths_of_assocs(assocs@) =~= sw_paths_of_assocs(a0) + items_trace_paths(
                items@.subrange(0, j as int + 1),
                prefix,
            ));
        }
        j += 1;
    }
    proof {
        assert(items@.subrange(0, items@.len() as int) =~= items@);
    }
}

/// A hardware task as declared in the application: the task
/// function's name and the exception name it is bound to.
pub struct HwTask {
    pub name: String,
    pub bind: String,
}

/// The architecture's core exceptions, self-describing on the wire.
pub open spec fn internal_exception_names() -> Seq<Seq<char>> {
    seq![
        "Reset"@,
        "NMI"@,
        "HardFault"@,
        "MemManage"@,
        "BusFault"@,
        "UsageFault"@,
        "SVCall"@,
        "DebugMonitor"@,
        "PendSV"@,
        "SysTick"@,
    ]
}

/// A bind that needs no numeric lookup.
pub open spec fn is_internal_bind(b: Seq<char>) -> bool {
    internal_exception_names().contains(b)
}

/// Decides membership in the fixed core-exception set.
pub fn bind_is_internal(bind: &String) -> (r: bool)
    ensures
        r == is_internal_bind(bind@),
{
    let s = bind.as_str();
    let r = str_eq(s, "Reset")
        || str_eq(s, "NMI")
        || str_eq(s, "HardFault")
        || str_eq(s, "MemManage")
        || str_eq(s, "BusFault")
        || str_eq(s, "UsageFault")
        || str_eq(s, "SVCall")
        || str_eq(s, "DebugMonitor")
        || str_eq(s, "PendSV")
        || str_eq(s, "SysTick");
    proof {
        assert(internal_exception_names()[0] == "Reset"@);
        assert(internal_exception_names()[1] == "NMI"@);
        assert(internal_exception_names()[2] == "HardFault"@);
        assert(internal_exception_names()[3] == "MemManage"@);
        assert(internal_exception_names()[4] == "BusFault"@);
        assert(internal_exception_names()[5] == "UsageFault"@);
        assert(internal_exception_names()[6] == "SVCall"@);
        assert(internal_exception_names()[7] == "DebugMonitor"@);
        assert(internal_exception_names()[8] == "PendSV"@);
        assert(internal_exception_names()[9] == "SysTick"@);
        if bind@ == "Reset"@ {
            assert(internal_exception_names()[0] == bind@);
            assert(is_internal_bind(bind@));
        } else if bind@ == "NMI"@ {
            assert(internal_exception_names()[1] == bind@);
            assert(is_internal_bind(bind@));
        } else if bind@ == "HardFault"@ {
            assert(internal_exception_names()[2] == bind@);
            assert(is_internal_bind(bind@));
        } else if bind@ == "MemManage"@ {
            assert(internal_exception_names()[3] == bind@);
            assert(is_internal_bind(bind@));
        } else if bind@ == "BusFault"@ {
            assert(internal_exception_names()[4] == bind@);
            assert(is_internal_bind(bind@));
        } else if bind@ == "UsageFault"@ {
            assert(internal_exception_names()[5] == bind@);
            assert(is_internal_bind(bind@));
        } else if bind@ == "SVCall"@ {
            assert(internal_exception_names()[6] == bind@);
            assert(is_internal_bind(bind@));
        } else if bind@ == "DebugMonitor"@ {
            assert(internal_exception_names()[7] == bind@);
            assert(is_internal_bind(bind@));
        } else if bind@ == "PendSV"@ {
            assert(internal_exception_names()[8] == bind@);
            assert(is_internal_bind(bind@));
        } else if bind@ == "SysTick"@ {
            assert(internal_exception_names()[9] == bind@);
            assert(is_internal_bind(bind@));
        } else {
            assert forall|k: int| 0 <= k < internal_exception_names().len()
                implies internal_exception_names()[k] != bind@ by {
            }
            assert(!is_internal_bind(bind@));
        }
    }
    r
}

/// The path a hardware task's handler gets: the application module
/// followed by the task function's name.
pub open spec fn app_path(task: Seq<char>) -> Seq<Seq<char>> {
    seq!["app"@, task]
}

fn make_task_path(name: &String) -> (r: TaskPath)
    ensures
        r@ == app_path(name@),
{
    let mut segments: Vec<String> = Vec::new();
    segments.push(String::from_str("app"));
    segments.push(name.clone());
    proof {
        assert(segments.deep_view() =~= app_path(name@));
    }
    TaskPath { segments }
}

/// The binds that need numeric resolution, in declaration order.
pub open spec fn ext_binds(tasks: Seq<HwTask>) -> Seq<Seq<char>>
    decreases tasks.len(),
{
    if tasks.len() == 0 {
        Seq::empty()
    } else {
        ext_binds(tasks.drop_last()) + (if is_internal_bind(tasks.last().bind@) {
            Seq::<Seq<char>>::empty()
        } else {
            seq![tasks.last().bind@]
        })
    }
}

/// The core-exception bindings a task list denotes: for each task
/// bound to an internal exception, its bind name maps to the task's
/// path; a repeated bind keeps the last task.
pub open spec fn int_assoc_map(tasks: Seq<HwTask>) -> Map<Seq<char>, Seq<Seq<char>>>
    decreases tasks.len(),
{
    if tasks.len() == 0 {
        Map::empty()
    } else {
        let m = int_assoc_map(tasks.drop_last());
        let t = tasks.last();
        if is_internal_bind(t.bind@) {
            m.insert(t.bind@, app_path(t.name@))
        } else {
            m
        }
    }
}

/// The peripheral-interrupt bindings a task list denotes, given the
/// recovered name-to-number assignment: each task whose bind has a
/// number maps that number to the task's path and the bind's name.
pub open spec fn ext_assoc_map(tasks: Seq<HwTask>, nrs: Map<Seq<char>, u8>) -> Map<
    u8,
    (Seq<Seq<char>>, Seq<char>),
>
    decreases tasks.len(),
{
    if tasks.len() == 0 {
        Map::empty()
    } else {
        let m = ext_assoc_map(tasks.drop_last(), nrs);
        let t = tasks.last();
        if nrs.contains_key(t.bind@) {
            m.insert(nrs[t.bind@], (app_path(t.name@), t.bind@))
        } else {
            m
        }
    }
}

/// Looks a bind's recovered number up; the last entry for a name wins.
fn find_nr(numbers: &Vec<(String, u8)>, bind: &String) -> (r: Option<u8>)
    ensures
        match r {
            Some(n) => kv_map(numbers.deep_view()).contains_key(bind@) && kv_map(
                numbers.deep_view(),
            )[bind@] == n,
            None => !kv_map(numbers.deep_view()).contains_key(bind@),
        },
{
    let mut i: usize = numbers.len();
    while i > 0
        invariant
            i <= numbers@.len(),
            forall|j: int|
                i <= j < numbers@.len() ==> (#[trigger] numbers.deep_view()[j]).0 != bind@,
        decreases i,
    {
        i -= 1;
        if numbers[i].0 == *bind {
            proof {
                assert(numbers.deep_view()[i as int].0 == bind@);
                lemma_kv_map_last_match(numbers.deep_view(), i as int);
            }
            return Some(numbers[i].1);
        }
    }
    proof {
        assert(forall|j: int|
            0 <= j < numbers@.len() ==> (#[trigger] numbers.deep_view()[j]).0 != bind@);
        lemma_kv_map_absent(numbers.deep_view(), bind@);
    }
    None
}

/// Inserts a core-exception binding, replacing the entry of an equal
/// bind so that the list stays a map.
#[verifier::loop_isolation(false)]
fn upsert_exc(r: &mut Vec<(String, TaskPath)>, bind: &String, path: TaskPath)
    requires
        distinct_keys(exc_pairs_of(old(r)@)),
    ensures
        distinct_keys(exc_pairs_of(final(r)@)),
        kv_map(exc_pairs_of(final(r)@)) == kv_map(exc_pairs_of(old(r)@)).insert(bind@, path@),
{
    let ghost p0 = exc_pairs_of(old(r)@);
    let ghost pv = path@;
    let mut k: usize = 0;
    while k < r.len()
        invariant
            *r == *old(r),
            k <= r@.len(),
            forall|j: int| 0 <= j < k ==> (#[trigger] exc_pairs_of(r@)[j]).0 != bind@,
        decreases r@.len() - k,
    {
        if r[k].0 == *bind {
            proof {
                assert(exc_pairs_of(r@)[k as int].0 == bind@);
            }
            r.set(k, (bind.clone(), path));
            proof {
                assert(exc_pairs_of(r@) =~= p0.update(k as int, (p0[k as int].0, pv)));
                lemma_kv_map_update(p0, k as int, pv);
                assert(forall|j: int|
                    0 <= j < p0.len() ==> (#[trigger] exc_pairs_of(r@)[j]).0 == p0[j].0);
                assert(distinct_keys(exc_pairs_of(r@)));
            }
            return ;
        }
        k += 1;
    }
    r.push((bind.clone(), path));
    proof {
        assert(exc_pairs_of(r@) =~= p0.push((bind@, pv)));
        lemma_kv_map_push(p0, bind@, pv);
        assert(forall|j: int| 0 <= j < p0.len() ==> (#[trigger] exc_pairs_of(r@)[j]) == p0[j]);
        assert(distinct_keys(exc_pairs_of(r@)));
    }
}

/// Inserts a peripheral-interrupt binding, replacing the entry of an
/// equal number so that the list stays a map.
#[verifier::loop_isolation(false)]
fn upsert_int(r: &mut Vec<(u8, (TaskPath, String))>, nr: u8, path: TaskPath, bind: &String)
    requires
        distinct_keys(int_pairs_of(old(r)@)),
    ensures
        distinct_keys(int_pairs_of(final(r)@)),
        kv_map(int_pairs_of(final(r)@)) == kv_map(int_pairs_of(old(r)@)).insert(
            nr,
            (path@, bind@),
        ),
{
    let ghost p0 = int_pairs_of(old(r)@);
    let ghost pv = path@;
    let mut k: usize = 0;
    while k < r.len()
        invariant
            *r == *old(r),
            k <= r@.len(),
            forall|j: int| 0 <= j < k ==> (#[trigger] int_pairs_of(r@)[j]).0 != nr,
        decreases r@.len() - k,
    {
        if r[k].0 == nr {
            proof {
                assert(int_pairs_of(r@)[k as int].0 == nr);
            }
            r.set(k, (nr, (path, bind.clone())));
            proof {
                assert(int_pairs_of(r@) =~= p0.update(k as int, (p0[k as int].0, (pv, bind@))));
                lemma_kv_map_update(p0, k as int, (pv, bind@));
                assert(forall|j: int|
                    0 <= j < p0.len() ==> (#[trigger] int_pairs_of(r@)[j]).0 == p0[j].0);
                assert(distinct_keys(int_pairs_of(r@)));
            }
            return ;
        }
        k += 1;
    }
    r.push((nr, (path, bind.clone())));
    proof {
        assert(int_pairs_of(r@) =~= p0.push((nr, (pv, bind@))));
        lemma_kv_map_push(p0, nr, (pv, bind@));
        assert(forall|j: int| 0 <= j < p0.len() ==> (#[trigger] int_pairs_of(r@)[j]) == p0[j]);
        assert(distinct_keys(int_pairs_of(r@)));
    }
}

fn build_int_assocs(tasks: &Vec<HwTask>) -> (r: Vec<(String, TaskPath)>)
    ensures
        distinct_keys(exc_pairs_of(r@)),
        kv_map(exc_pairs_of(r@)) == int_assoc_map(tasks@),
{
    let mut r: Vec<(String, TaskPath)> = Vec::new();
    proof {
        assert(exc_pairs_of(r@) =~= Seq::<(Seq<char>, Seq<Seq<char>>)>::empty());
        assert(tasks@.subrange(0, 0) =~= Seq::<HwTask>::empty());
    }
    let mut j: usize = 0;
    while j < tasks.len()
        invariant
            j <= tasks@.len(),
            distinct_keys(exc_pairs_of(r@)),
            kv_map(exc_pairs_of(r@)) == int_assoc_map(tasks@.subrange(0, j as int)),
        decreases tasks@.len() - j,
    {
        proof {
            assert(tasks@.subrange(0, j as int + 1).drop_last() =~= tasks@.subrange(0, j as int));
            assert(tasks@.subrange(0, j as int + 1).last() == tasks@[j as int]);
        }
        let t = &tasks[j];
        if bind_is_internal(&t.bind) {
            let path = make_task_path(&t.name);
            upsert_exc(&mut r, &t.bind, path);
        }
        j += 1;
    }
    proof {
        assert(tasks@.subrange(0, tasks@.len() as int) =~= tasks@);
    }
    r
}

#[verifier::loop_isolation(false)]
fn build_ext_assocs(tasks: &Vec<HwTask>, numbers: &Vec<(String, u8)>) -> (r: Vec<
    (u8, (TaskPath, String)),
>)
    ensures
        distinct_keys(int_pairs_of(r@)),
        kv_map(int_pairs_of(r@)) == ext_assoc_map(tasks@, kv_map(numbers.deep_view())),
{
    let ghost nrs = kv_map(numbers.deep_view());
    let mut r: Vec<(u8, (TaskPath, String))> = Vec::new();
    proof {
        assert(int_pairs_of(r@) =~= Seq::<(u8, (Seq<Seq<char>>, Seq<char>))>::empty());
        assert(tasks@.subrange(0, 0) =~= Seq::<HwTask>::empty());
    }
    let mut j: usize = 0;
    while j < tasks.len()
        invariant
            j <= tasks@.len(),
            distinct_keys(int_pairs_of(r@)),
            kv_map(int_pairs_of(r@)) == ext_assoc_map(tasks@.subrange(0, j as int), nrs),
        decreases tasks@.len() - j,
    {
        proof {
            assert(tasks@.subrange(0, j as int + 1).drop_last() =~= tasks@.subrange(0, j as int));
            assert(tasks@.subrange(0, j as int + 1).last() == tasks@[j as int]);
        }
        let t = &tasks[j];
        match find_nr(numbers, &t.bind) {
            Some(nr) => {
                let path = make_task_path(&t.name);
                upsert_int(&mut r, nr, path, &t.bind);
            },
            None => {},
        }
        j += 1;
    }
    proof {
        assert(tasks@.subrange(0, tasks@.len() as int) =~= tasks@);
    }
    r
}

/// Software-task ids never repeat: each id is its entry's position.
pub proof fn lemma_sw_ids_distinct(s: Seq<(u32, TaskPath)>)
    requires
        ids_are_positions(s),
    ensures
        distinct_keys(sw_pairs_of(s)),
{
    assert forall|i: int, j: int| 0 <= i < j < s.len() implies (#[trigger] sw_pairs_of(s)[i]).0
        != (#[trigger] sw_pairs_of(s)[j]).0 by {
        assert(s[i].0 == i);
        assert(s[j].0 == j);
    }
}

/// The name-to-number map that recovered interrupt numbers denote.
pub open spec fn numbers_map(numbers: Option<&Vec<(String, u8)>>) -> Map<Seq<char>, u8> {
    match numbers {
        Some(ns) => kv_map(ns.deep_view()),
        None => Map::empty(),
    }
}

/// Recovers task identities from the application's parsed declaration.
/// Built once per trace session, before tracing starts.
pub struct TaskResolver {
    /// The application module item, as declared in the source.
    pub app: AppItem,
    /// The declared hardware tasks with their binds.
    pub hw_tasks: Vec<HwTask>,
    /// The segments of the application's device argument, if declared.
    pub device: Option<Vec<String>>,
}

impl TaskResolver {
    pub open spec fn device_len(self) -> int {
        match self.device {
            Some(d) => d@.len() as int,
            None => 0,
        }
    }

    pub fn new(app: AppItem, hw_tasks: Vec<HwTask>, device: Option<Vec<String>>) -> (r:
        TaskResolver)
        ensures
            r.app == app,
            r.hw_tasks == hw_tasks,
            r.device == device,
    {
        TaskResolver { app, hw_tasks, device }
    }

    /// Replays the instrumentation pass's traversal: depth-first over
    /// the declared items, one fresh id per trace-marked function,
    /// counted from zero. The result holds exactly one entry per
    /// marked function, ids `0..N-1` in traversal order.
    pub fn software_tasks(&self) -> (r: Vec<(u32, TaskPath)>)
        requires
            item_trace_paths(self.app, Seq::empty()).len() <= u32::MAX,
        ensures
            ids_are_positions(r@),
            sw_paths_of_assocs(r@) == item_trace_paths(self.app, Seq::empty()),
    {
        let mut ctx: Vec<String> = Vec::new();
        let mut assocs: Vec<(u32, TaskPath)> = Vec::new();
        proof {
            assert(ctx.deep_view() =~= Seq::<Seq<char>>::empty());
            assert(sw_paths_of_assocs(assocs@) =~= Seq::<Seq<Seq<char>>>::empty());
        }
        visit_item(&self.app, &mut ctx, &mut assocs);
        proof {
            assert(sw_paths_of_assocs(assocs@) =~= item_trace_paths(self.app, Seq::empty()));
        }
        assocs
    }

    /// The binds that only the hardware-description crate can number,
    /// in declaration order.
    pub fn required_interrupts(&self) -> (r: Vec<String>)
        ensures
            r.deep_view() == ext_binds(self.hw_tasks@),
    {
        let mut r: Vec<String> = Vec::new();
        proof {
            assert(r.deep_view() =~= Seq::<Seq<char>>::empty());
            assert(self.hw_tasks@.subrange(0, 0) =~= Seq::<HwTask>::empty());
        }
        let mut j: usize = 0;
        while j < self.hw_tasks.len()
            invariant
                j <= self.hw_tasks@.len(),
                r.deep_view() == ext_binds(self.hw_tasks@.subrange(0, j as int)),
            decreases self.hw_tasks@.len() - j,
        {
            proof {
                assert(self.hw_tasks@.subrange(0, j as int + 1).drop_last()
                    =~= self.hw_tasks@.subrange(0, j as int));
                assert(self.hw_tasks@.subrange(0, j as int + 1).last()
                    == self.hw_tasks@[j as int]);
            }
            let ghost d0 = r.deep_view();
            if !bind_is_internal(&self.hw_tasks[j].bind) {
                r.push(self.hw_tasks[j].bind.clone());
                proof {
                    assert(r.deep_view() =~= d0 + seq![self.hw_tasks@[j as int].bind@]);
                }
            } else {
                proof {
                    assert(r.deep_view() =~= d0 + Seq::<Seq<char>>::empty());
                }
            }
            j += 1;
        }
        proof {
            assert(self.hw_tasks@.subrange(0, self.hw_tasks@.len() as int) =~= self.hw_tasks@);
        }
        r
    }

    /// Produces the three association maps. Fails, exposing no partial
    /// map, when the device argument is missing, when it cannot be
    /// read while peripheral interrupts are bound, or when their
    /// numbers were not recovered; succeeds otherwise, with the maps
    /// the declaration and the recovered numbers denote.
    pub fn resolve(&self, numbers: Option<&Vec<(String, u8)>>) -> (r: Result<
        TaskResolveMaps,
        ResolveError,
    >)
        requires
            item_trace_paths(self.app, Seq::empty()).len() <= u32::MAX,
        ensures
            match r {
                Ok(maps) => {
                    &&& self.device is Some
                    &&& maps.wf()
                    &&& ids_are_positions(maps.sw_assocs@)
                    &&& sw_paths_of_assocs(maps.sw_assocs@) == item_trace_paths(
                        self.app,
                        Seq::empty(),
                    )
                    &&& maps.exc_map() == int_assoc_map(self.hw_tasks@)
                    &&& ext_binds(self.hw_tasks@).len() == 0 ==> maps.int_map() == Map::<
                        u8,
                        (Seq<Seq<char>>, Seq<char>),
                    >::empty()
                    &&& ext_binds(self.hw_tasks@).len() > 0 ==> {
                        &&& numbers is Some
                        &&& 1 <= self.device_len() <= 2
                        &&& maps.int_map() == ext_assoc_map(self.hw_tasks@, numbers_map(numbers))
                    }
                },
                Err(e) => match e {
                    ResolveError::MissingDeviceArg => self.device is None,
                    ResolveError::BadDeviceArg => {
                        &&& self.device is Some
                        &&& ext_binds(self.hw_tasks@).len() > 0
                        &&& (self.device_len() == 0 || self.device_len() > 2)
                    },
                    ResolveError::InterruptResolutionFailed => {
                        &&& self.device is Some
                        &&& 1 <= self.device_len() <= 2
                        &&& ext_binds(self.hw_tasks@).len() > 0
                        &&& numbers is None
                    },
                    _ => false,
                },
            },
    {
        let device_segments: usize = match &self.device {
            Some(d) => d.len(),
            None => {
                return Err(ResolveError::MissingDeviceArg);
            },
        };
        let sw_assocs = self.software_tasks();
        let exceptions = build_int_assocs(&self.hw_tasks);
        let ext = self.required_interrupts();
        proof {
            assert(ext.deep_view().len() == ext@.len());
        }
        let interrupts: Vec<(u8, (TaskPath, String))> = if ext.len() == 0 {
            let empty: Vec<(u8, (TaskPath, String))> = Vec::new();
            proof {
                assert(int_pairs_of(empty@) =~= Seq::<(u8, (Seq<Seq<char>>, Seq<char>))>::empty());
            }
            empty
        } else {
            if device_segments == 0 || device_segments > 2 {
                return Err(ResolveError::BadDeviceArg);
            }
            match numbers {
                Some(ns) => build_ext_assocs(&self.hw_tasks, ns),
                None => {
                    return Err(ResolveError::InterruptResolutionFailed);
                },
            }
        };
        proof {
            lemma_sw_ids_distinct(sw_assocs@);
        }
        Ok(TaskResolveMaps { exceptions, interrupts, sw_assocs })
    }
}

/// The symbol name of the generated accessor for one bound interrupt,
/// shared by the generated unit and the loader that calls into it.
pub fn adhoc_func_name(bind: &str) -> (r: String)
    ensures
        r@ == "rtic_scope_func_"@ + bind@,
{
    let mut s = String::from_str("rtic_scope_func_");
    s.append(bind);
    s
}

/// The dependency line added to the generated unit's manifest, naming
/// the hardware-description crate and its optional feature.
pub fn adhoc_dep_line(crate_name: &str, feature: Option<&str>) -> (r: String)
    ensures
        r@ == "\n"@ + crate_name@ + " = { version = \"\", features = [\""@ + (match feature {
            Some(f) => f@,
            None => Seq::<char>::empty(),
        }) + "\"]}\n"@,
{
    let mut s = String::from_str("\n");
    s.append(crate_name);
    s.append(" = { version = \"\", features = [\"");
    match feature {
        Some(f) => {
            s.append(f);
        },
        None => {},
    }
    s.append("\"]}\n");
    proof {
        assert(s@ =~= "\n"@ + crate_name@ + " = { version = \"\", features = [\""@ + (
        match feature {
            Some(f) => f@,
            None => Seq::<char>::empty(),
        }) + "\"]}\n"@);
    }
    s
}

/// The import line of the generated unit, bringing the
/// hardware-description crate's interrupt enumeration into scope.
pub fn adhoc_import_line(crate_name: &str, feature: Option<&str>) -> (r: String)
    ensures
        r@ == "\nuse "@ + crate_name@ + (match feature {
            Some(f) => "::"@ + f@,
            None => Seq::<char>::empty(),
        }) + "::Interrupt;\n"@,
{
    let mut s = String::from_str("\nuse ");
    s.append(crate_name);
    match feature {
        Some(f) => {
            s.append("::");
            s.append(f);
        },
        None => {},
    }
    s.append("::Interrupt;\n");
    proof {
        assert(s@ =~= "\nuse "@ + crate_name@ + (match feature {
            Some(f) => "::"@ + f@,
            None => Seq::<char>::empty(),
        }) + "::Interrupt;\n"@);
    }
    s
}


/// Every task bound to a core exception is recovered by name alone:
/// the core-exception map binds it without any numeric lookup — the
/// map is built from the declaration and the fixed name set only.
pub proof fn lemma_internal_binds_present(tasks: Seq<HwTask>)
    ensures
        forall|i: int|
            0 <= i < tasks.len() && is_internal_bind((#[trigger] tasks[i]).bind@)
                ==> int_assoc_map(tasks).contains_key(tasks[i].bind@),
    decreases tasks.len(),
{
    if tasks.len() > 0 {
        lemma_internal_binds_present(tasks.drop_last());
        assert forall|i: int|
            0 <= i < tasks.len() && is_internal_bind((#[trigger] tasks[i]).bind@)
                implies int_assoc_map(tasks).contains_key(tasks[i].bind@) by {
            if i < tasks.len() - 1 {
                assert(tasks.drop_last()[i] == tasks[i]);
                assert(int_assoc_map(tasks.drop_last()).contains_key(tasks[i].bind@));
            } else {
                assert(tasks.last() == tasks[i]);
            }
        }
    }
}


/// The manifest the generated unit is built with: a library crate
/// compiled as a dynamically loadable module, its dependency table
/// filled by `adhoc_dep_line`.
pub fn adhoc_manifest_preamble() -> (r: String)
    ensures
        r@ == "[package]\nname = \"adhoc\"\nversion = \"0.0.0\"\nedition = \"2021\"\n[lib]\ncrate-type = [\"cdylib\"]\n[dependencies]\n"@,
{
    String::from_str(
        "[package]\nname = \"adhoc\"\nversion = \"0.0.0\"\nedition = \"2021\"\n[lib]\ncrate-type = [\"cdylib\"]\n[dependencies]\n",
    )
}

/// The generated accessor for one bound interrupt: an unmangled
/// function that returns the interrupt's number. `linkage` is the
/// visibility-and-ABI prefix of the function item, supplied by the
/// generator that writes the unit out.
pub fn adhoc_accessor(linkage: &str, bind: &str) -> (r: String)
    ensures
        r@ == "#[no_mangle]\n"@ + linkage@ + "fn rtic_scope_func_"@ + bind@ + "() -> u8 {\n    Interrupt::"@
            + bind@ + ".nr()\n}\n"@,
{
    let mut s = String::from_str("#[no_mangle]\n");
    s.append(linkage);
    s.append("fn rtic_scope_func_");
    s.append(bind);
    s.append("() -> u8 {\n    Interrupt::");
    s.append(bind);
    s.append(".nr()\n}\n");
    proof {
        assert(s@ =~= "#[no_mangle]\n"@ + linkage@ + "fn rtic_scope_func_"@ + bind@
            + "() -> u8 {\n    Interrupt::"@ + bind@ + ".nr()\n}\n"@);
    }
    s
}

} // verus!
