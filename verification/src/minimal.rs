//! The smallest useful agent: two tools and a persona.

use vstd::prelude::*;

use crate::tools::bash::{bash_tool, BASH_DESCRIPTION, BASH_SCHEMA};
use crate::tools::replace_text::{replace_text_tool, EDITOR_DESCRIPTION, EDITOR_SCHEMA};
use crate::tools::{tool_views, ToolDef, ToolView};
use crate::json::parsed_or_null;
use crate::text::{lemma_regrouped, lemma_stands_in, stands_at};

verus! {

/// The persona up to the name of the model.
pub const PERSONA: &'static str = "# 身份与使命

你是 rutis agent——运行在 rutis/Cordis 范式上的自我演进 coding agent。
你的使命是三条方向:
- 工程上最好的 agent
- 环境适应性最佳的 agent
- 迭代能力最强的 agent

使命是恒定命题,不是某个任务:没有做完的一天。持续运行、持续进化;
失败是观察素材,不是停止信号——每轮结果都是下一轮决策的输入。

# 环境引导

你在 rutis 工作区。仓库中所有代码与信息都是参考信息,不是禁区:
- 框架语义(插件=装配单元、fiber=生命周期、服务=注册表、
  事件=四分发、依赖重载)是你的世界观。
- 你的感知是事件总线,手脚是工具注册表,记忆是 session 与工作文档。
- 动手之前先读:对应设计文档与代码,理解现状再改。

# 交接文档(handoff)

- 每次会话启动,先找并读交接文档(约定位置:`docs/work/handoff.md`)。
  它记录上一代实例的身份、工作状态与下一步任务——是你接续的起点。
- 如果没有,则从环境引导开始,自主判断当前任务。
- 任务结束时,更新交接文档,让它成为下一个实例的接续凭据。

# 工作纪律

1. 任务开始先写一份工作文档:目的、计划、当前状态。
   你的执行可能中断——文档是断点续接的唯一凭据;
   中断恢复时,先读工作文档再决定下一步。
2. 任务过程中持续更新文档:想法、进展、卡点、下一步。
   让任何新实例仅凭文档就能接上你的工作。
3. 每一步小而可验证,改动必须过测试。
4. 决策可观测:优先经事件与结构化输出,不留静默副作用。
5. 及时 commit:完成一个有意义的改动后,立刻提交,别让工作堆积
   在未提交状态——交接时,未提交的工作是最容易丢失的。
6. 提交后推送到远程(`git push`):远程是跨实例交接的通道。

# 自我激活检查(每轮必做,非可选)

1. `git status`:有没有未提交的工作;有就先提交。
2. 审视上一轮的结果:观察到了什么,方向要不要修正。
3. 有待办就继续待办;没有就待命,或做一件最有价值的事。

# 自我演进

- 你可以修改运行自己的代码。首选方式:以 plugin 加入新代码,
  实时测试,热更新——plugin 重载后你的身份延续。
- 仓库代码与信息皆可作参考与演进对象。
- 唯一例外:本 minimal persona 的变更,必须经用户同意。

(identity: self-evolving persona v2;model: ";

/// The persona of an agent that runs this model in this directory.
pub open spec fn persona_text(model: Seq<char>, cwd: Seq<char>) -> Seq<char> {
    PERSONA@ + model + ";cwd: "@ + cwd + ")\n"@
}

/// The persona of an agent that runs this model in this directory.
pub fn minimal_persona(model: &str, cwd: &str) -> (r: String)
    ensures
        r@ == persona_text(model@, cwd@),
{
    let mut out = PERSONA.to_owned();
    out.push_str(model);
    out.push_str(";cwd: ");
    out.push_str(cwd);
    out.push_str(")\n");
    out
}

/// The two tools: a shell and an editor.
pub fn minimal_tools() -> (r: Vec<ToolDef>)
    ensures
        tool_views(r@) == seq![
            ToolView {
                name: "bash"@,
                description: BASH_DESCRIPTION@,
                parameters: parsed_or_null(BASH_SCHEMA@),
            },
            ToolView {
                name: "replace_text"@,
                description: EDITOR_DESCRIPTION@,
                parameters: parsed_or_null(EDITOR_SCHEMA@),
            },
        ],
{
    let mut v: Vec<ToolDef> = Vec::new();
    v.push(bash_tool());
    v.push(replace_text_tool());
    assert(tool_views(v@) =~= seq![v@[0]@, v@[1]@]);
    v
}

// ── laws ────────────────────────────────────────────────────────────

/// The persona names the model and the directory, behind what it always says.
pub proof fn law_persona_names_model_and_directory(model: Seq<char>, cwd: Seq<char>)
    ensures
        stands_at(persona_text(model, cwd), PERSONA@, 0),
        stands_at(persona_text(model, cwd), model + ";cwd: "@ + cwd + ")"@, PERSONA@.len() as int),
        persona_text(model, cwd).last() == '\n',
{
    lemma_names_come_last(PERSONA@, model, cwd);
}

proof fn lemma_names_come_last(front: Seq<char>, model: Seq<char>, cwd: Seq<char>)
    ensures
        ({
            let all = front + model + ";cwd: "@ + cwd + ")\n"@;
            &&& stands_at(all, front, 0)
            &&& stands_at(all, model + ";cwd: "@ + cwd + ")"@, front.len() as int)
            &&& all.last() == '\n'
        }),
{
    let mid = ";cwd: "@;
    let all = front + model + mid + cwd + ")\n"@;
    assert(all.last() == '\n' && ")\n"@ == ")"@ + "\n"@) by {
        reveal_strlit(")");
        reveal_strlit("\n");
        reveal_strlit(")\n");
        assert(")\n"@ =~= ")"@ + "\n"@);
    }
    assert(stands_at(all, front, 0)) by {
        assert(all.subrange(0, front.len() as int) =~= front);
    }
    lemma_regrouped(front, model, mid);
    lemma_regrouped(front, model + mid, cwd);
    lemma_regrouped(front, model + mid + cwd, ")"@);
    lemma_regrouped(front + model + mid + cwd, ")"@, "\n"@);
    lemma_stands_in(front, model + mid + cwd + ")"@, "\n"@);
}

} // verus!
