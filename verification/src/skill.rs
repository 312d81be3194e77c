//! The built-in agent workflows: a compact list for routing, and the full
//! prompt of one workflow on request, so that not every workflow sits in the
//! agent's context at once.

use vstd::prelude::*;

use crate::cli::SkillCommand;
use crate::text::{append_str, join, owned, str_eq, string_of};

verus! {

/// One built-in workflow.
#[derive(Debug, Clone, Copy)]
pub struct Skill {
    pub name: &'static str,
    pub description: &'static str,
    pub prompt: &'static str,
}

/// The names of the built-in workflows, in registry order.
pub open spec fn skill_names() -> Seq<Seq<char>> {
    seq!["project-init"@, "doc-ingest"@, "gap-analysis"@]
}

/// The registry of built-in workflows.
pub fn available() -> (r: Vec<Skill>)
    ensures
        r@.len() == 3,
        forall|i: int| 0 <= i < 3 ==> (#[trigger] r@[i]).name@ == skill_names()[i],
        r@[0].description@ == "创建合规项目并绑定系统、框架与等级"@,
        r@[1].description@ == "解析审计文档并导入事实、控制正文或矩阵"@,
        r@[2].description@ == "基于控制、事实与证据评估差距并生成报告"@,
        r@[0].prompt@ == PROJECT_INIT@,
        r@[1].prompt@ == DOC_INGEST@,
        r@[2].prompt@ == GAP_ANALYSIS@,
        forall|i: int| 0 <= i < 3 ==> (#[trigger] r@[i]).description@ == skill_descriptions()[i],
{
    let mut r: Vec<Skill> = Vec::new();
    r.push(Skill { name: "project-init", description: "创建合规项目并绑定系统、框架与等级", prompt: PROJECT_INIT });
    r.push(Skill { name: "doc-ingest", description: "解析审计文档并导入事实、控制正文或矩阵", prompt: DOC_INGEST });
    r.push(Skill { name: "gap-analysis", description: "基于控制、事实与证据评估差距并生成报告", prompt: GAP_ANALYSIS });
    r
}

/// The registered names are distinct.
pub proof fn lemma_skill_names_distinct()
    ensures
        forall|i: int, j: int| 0 <= i < j < 3 ==> skill_names()[i] != skill_names()[j],
{
    reveal_strlit("project-init");
    reveal_strlit("doc-ingest");
    reveal_strlit("gap-analysis");
    assert(skill_names()[0][0] != skill_names()[1][0]);
    assert(skill_names()[0][0] != skill_names()[2][0]);
    assert(skill_names()[1][0] != skill_names()[2][0]);
}


/// The descriptions of the built-in workflows, in registry order.
pub open spec fn skill_descriptions() -> Seq<Seq<char>> {
    seq!["创建合规项目并绑定系统、框架与等级"@, "解析审计文档并导入事实、控制正文或矩阵"@, "基于控制、事实与证据评估差距并生成报告"@]
}

/// The prompts of the built-in workflows, in registry order.
pub open spec fn skill_prompts() -> Seq<Seq<char>> {
    seq![PROJECT_INIT@, DOC_INGEST@, GAP_ANALYSIS@]
}

/// The lines `name\tdescription` of the first `n` workflows.
pub open spec fn list_lines(n: nat) -> Seq<char>
    decreases n,
{
    if n == 0 {
        Seq::empty()
    } else {
        list_lines((n - 1) as nat) + skill_names()[n - 1] + "\t"@ + skill_descriptions()[n - 1] + "\n"@
    }
}

/// The compact index: a header and one line per workflow.
pub open spec fn list_text() -> Seq<char> {
    "NAME\tDESCRIPTION\n"@ + list_lines(3)
}

/// A workflow name that is not registered.
#[derive(Debug, Clone)]
pub struct UnknownSkill {
    pub name: String,
    /// The registered names, joined by `, `.
    pub available: String,
}

/// The compact index of the built-in workflows.
pub fn list() -> (s: String)
    ensures
        s@ == list_text(),
{
    let skills = available();
    let mut v: Vec<char> = Vec::new();
    append_str(&mut v, "NAME\tDESCRIPTION\n");
    let ghost head = v@;
    let mut i: usize = 0;
    while i < skills.len()
        invariant
            i <= skills@.len(),
            skills@.len() == 3,
            forall|k: int| 0 <= k < 3 ==> (#[trigger] skills@[k]).name@ == skill_names()[k],
            skills@[0].description@ == skill_descriptions()[0],
            skills@[1].description@ == skill_descriptions()[1],
            skills@[2].description@ == skill_descriptions()[2],
            v@ == head + list_lines(i as nat),
        decreases skills.len() - i,
    {
        assert(skills@[i as int].description@ == skill_descriptions()[i as int]);
        append_str(&mut v, skills[i].name);
        append_str(&mut v, "\t");
        append_str(&mut v, skills[i].description);
        append_str(&mut v, "\n");
        assert(v@ =~= head + list_lines((i + 1) as nat));
        i += 1;
    }
    string_of(&v)
}

/// The position of a registered name, or -1.
pub open spec fn name_pos(name: Seq<char>) -> int {
    if name == skill_names()[0] {
        0
    } else if name == skill_names()[1] {
        1
    } else if name == skill_names()[2] {
        2
    } else {
        -1
    }
}

/// The full prompt of a workflow, or the refusal of an unknown name.
pub fn get(name: &str) -> (r: Result<String, UnknownSkill>)
    ensures
        name_pos(name@) >= 0 ==> (r matches Ok(s) && s@ == skill_prompts()[name_pos(name@)]),
        name_pos(name@) < 0 ==> (r matches Err(e) && e.name@ == name@ && e.available@ == join(skill_names(), ", "@)),
{
    let skills = available();
    let mut i: usize = 0;
    while i < skills.len()
        invariant
            i <= skills@.len(),
            skills@.len() == 3,
            forall|k: int| 0 <= k < 3 ==> (#[trigger] skills@[k]).name@ == skill_names()[k],
            skills@[0].prompt@ == skill_prompts()[0],
            skills@[1].prompt@ == skill_prompts()[1],
            skills@[2].prompt@ == skill_prompts()[2],
            forall|j: int| 0 <= j < i ==> skill_names()[j] != name@,
        decreases skills.len() - i,
    {
        if str_eq(skills[i].name, name) {
            proof {
                lemma_skill_names_distinct();
            }
            return Ok(owned(skills[i].prompt));
        }
        i += 1;
    }
    let mut names: Vec<String> = Vec::new();
    let mut k: usize = 0;
    while k < skills.len()
        invariant
            k <= skills@.len(),
            skills@.len() == 3,
            forall|q: int| 0 <= q < 3 ==> (#[trigger] skills@[q]).name@ == skill_names()[q],
            names@.len() == k,
            forall|j: int| 0 <= j < k ==> #[trigger] names@[j]@ == skill_names()[j],
        decreases skills.len() - k,
    {
        names.push(owned(skills[k].name));
        k += 1;
    }
    assert(crate::text::texts(names@) =~= skill_names());
    let mut v: Vec<char> = Vec::new();
    crate::text::append_joined(&mut v, &names, ", ");
    Err(UnknownSkill { name: owned(name), available: string_of(&v) })
}

/// What a `skill` command prints: the index, or the full prompt of one
/// workflow; an unknown name is refused with the registered names.
pub fn run(command: SkillCommand) -> (r: Result<String, UnknownSkill>)
    ensures
        command is List ==> (r matches Ok(s) && s@ == list_text()),
        command matches SkillCommand::Get { skill_name } ==> {
            &&& name_pos(skill_name@) >= 0 ==> (r matches Ok(s) && s@ == skill_prompts()[name_pos(skill_name@)])
            &&& name_pos(skill_name@) < 0 ==> (r matches Err(e) && e.name@ == skill_name@ && e.available@ == join(
                skill_names(),
                ", "@,
            ))
        },
{
    match command {
        SkillCommand::List => Ok(list()),
        SkillCommand::Get { skill_name } => get(skill_name.as_str()),
    }
}

/// The prompt of the `project-init` workflow.
pub const PROJECT_INIT: &'static str = r##"---
name: project-init
description: >-
  创建并初始化任意合规框架的评估项目，确认系统、框架及可选级别后通过
  `complai project init` 绑定系统与框架并预填控制矩阵。用于用户要求新建
  等保、ISO、NIST、SOC 2、PCI DSS 或其他合规项目，复用或创建系统知识库、
  确认框架等级、初始化矩阵或规划后续文档导入与差距分析时。
---

# 项目初始化

为一次合规评估初始化项目工作区：绑定“一个系统 × 一个合规框架”，
并从 compliance KB 预填完整控制矩阵。

同一系统评估多个框架时，为每个框架分别建项，复用同一 system slug。

## 需先确认的信息

1. 确认项目名，例如 `order-platform-iso27001-2026`。
2. 确认框架 slug，例如 `dengbao-2.0` 或 `iso27001-2022`。
3. 仅在框架定义级别时确认等级。等保定级不明时，根据受侵害客体、影响程度和
   系统数据分类请用户确认；不要为 ISO 等无级别框架填虚假等级。
4. 确认被评估系统的 slug 和显示名。已有系统复用 slug；新系统则使用 ASCII slug。

## 工作流

1. **核对框架控制库**：
   ```sh
   complai compliance list --framework <框架>
   ```
   - `dengbao-2.0` 尚未初始化时，运行 `complai compliance scaffold dengbao-2.0`。
   - 其他框架尚未入库时，暂停建项，加载 `doc-ingest` workflow，从用户有权使用的
     规范材料创建 `control_content` 记录。导入完成后回到本 workflow。

2. **复用或新建系统**：
   - 新系统：`complai system init <slug> --name "<显示名>"`。
   - 已有系统：直接复用 slug。

3. **初始化项目**：
   无级别框架运行：
   ```sh
   complai project init <项目名> --system <slug> --framework <框架>
   ```
   有级别框架运行：
   ```sh
   complai project init <项目名> --system <slug> --framework <框架> --level <等级>
   ```
   矩阵会预填完整控制清单，每项初始状态为 `unassessed`。

4. **进入项目并核对**：
   ```sh
   cd <项目名>
   complai project show
   complai matrix show --status unassessed
   ```

## 后续

- **若系统是新建的**：加载 `doc-ingest` workflow，从已有备案、设计或测评材料抽取
  架构/数据流/资产等事实；少量人工事实也可用 `complai system add`。
- **差距分析**：加载 `gap-analysis` workflow。
- **整改/证据**：使用 `fact add --kind 整改 ...` 和 `evidence add ...`。
- **报告**：使用 `gen report`。

## 约束

- 框架、可选级别与系统归属由用户确认，不要臆测。
- 只通过 CLI 写入状态；`project init` 前确保 compliance KB 已有该框架索引。
- 每个项目只绑定一个系统和一个框架。
"##;

/// The prompt of the `doc-ingest` workflow.
pub const DOC_INGEST: &'static str = r##"---
name: doc-ingest
description: >-
  从 Excel、PDF、Word、图片、飞书、腾讯文档等任意可访问材料中抽取合规知识，
  分类为控制内容、系统事实、项目事实或矩阵评估，并通过版本化 JSON bundle
  校验、预览和幂等写入 Complai。用于用户要求导入备案材料、测评报告、资产清单、
  数据流、控制要求、差距记录或云文档时。
---

# 文档灌库

原始输入不要求模板。使用当前环境适合该来源的读取能力完成“来源 -> 内容”：
本地文档使用对应的 PDF、文档、表格或 OCR 工具；云文档优先使用 Connector/API，
其次使用已登录浏览器，仍不可访问时请用户授权或导出。不要要求用户先整理成
Complai 专用格式。

Complai 只接收 Agent 生成的版本化 JSON。先获取当前二进制的权威 schema：

```sh
complai ingest schema
```

## 工作流

1. 读取材料并保留来源标识、文件哈希（可得时）、文档日期以及页码、工作表、
   单元格、章节或云文档块等定位信息。
2. 按语义把内容拆成原子记录：
   - `control_content`：权威规范中的控制元数据、要求摘要、实施指引和常见缺陷。
   - `system_fact`：可跨项目复用的架构、资产、数据流、部署、人员或策略事实。
   - `project_fact`：本次备案的发现、整改、例外、决策或备注。
   - `matrix_assessment`：针对一个控制项的 `unassessed/met/partial/gap/na` 状态。
   对 `system_fact` 使用统一粒度：一条事实只表达“一个明确对象在一个明确范围内，
   由一个明确来源支撑，并按同一生命周期变化的可独立验证主张”。对象、环境、
   系统边界、机制、来源、确认时间、置信度或更新周期任一不同，就拆成不同事实；
   不要按框架或控制项复制同一事实。
3. 按 `complai ingest schema` 输出 `tmp/complai-ingest.json`。为每条记录生成稳定
   `external_key`，组合来源身份、定位和记录语义；不要使用会随正文改写而变化的
   随机值。
   创建尚不存在的框架控制项时，在 `control_content` 中提供 `title`、`domain`
   和 `category`；框架有级别概念时再提供 `levels`。目标 `control` 使用
   `<framework>:<control-id>`，Complai 会创建控制文件并重建框架索引。
4. **校验并预览**：

   ```sh
   complai ingest validate --from tmp/complai-ingest.json
   complai ingest plan --from tmp/complai-ingest.json
   ```

5. **检查计划**：确认 plan 中的 create/update/unchanged、记录数量和目标均符合预期。
   发现误分类、意外覆盖或错误目标时，修正 bundle 并重新 validate/plan，不要 apply。
6. **写入**：计划确认无误后运行：

   ```sh
   complai ingest apply --from tmp/complai-ingest.json
   ```

7. **抽查**：写入后用
   `compliance show`、`system find/show`、`fact find/show` 或 `matrix show/trace`
   抽查结果。已进入项目时先运行 `complai project show`：同时写入 KB 与当前项目的
   bundle 会在事务内推进 revision；纯 KB bundle 会保留 drift，审阅变更后运行
   `complai project sync`。

## `system_fact` 输出检查清单

生成 bundle 前逐条检查；任一项不满足时先重新拆分，不要进入 apply：

- [ ] 只包含一个可独立判真的主张；任一子句能独立变化时已经拆开。
- [ ] 对象、系统边界、适用环境和覆盖群体明确。
- [ ] 全部内容共享同一来源定位、确认时间和置信度。
- [ ] 标题是客观主张，不是“安全情况”等主题，也不是“符合某控制”等结论。
- [ ] 正文写明必要机制和影响真实性的例外；独立例外另拆事实。
- [ ] `external_key` 对“来源定位 + 原子主张”稳定且唯一。
- [ ] 同一事实可以关联多个框架控制，但没有因框架不同复制正文。
- [ ] 不确定内容已限定范围、降低置信度或不输出。

以下内容必须拆分：MFA、堡垒机审计、日志告警、备份和恢复测试，因为它们可以
独立变化并由不同证据证明。认证流程中同一配置下共同变化的“密码 + 硬件令牌”
可以保留为一条事实。

## 判断边界

- 同一材料可以产生多种记录；按陈述性质拆分，不按文件整体归类。
- 测评报告中的系统描述属于 `system_fact`，测评发现属于 `project_fact` 或
  `matrix_assessment`。除非来源本身是权威规范，不要把测评机构解释写成
  `control_content`。
- `control_content.completeness=complete` 仅在三个正文段落均有可靠来源时使用；
  缺失内容保持 `partial`，不要补造。
- `unassessed` 只表示尚未评估；`partial`、`gap` 和 `na` 必须在 `gap` 字段说明
  缺口或不适用理由，`met` 不应携带 `gap`。
- 每条记录必须带精确来源定位和置信度。低置信度记录默认不能 apply；只有用户审阅
  并明确确认后才使用 `--allow-low-confidence`。
- 控制正文使用自己的话概述，不复录用户无权再分发的标准原文。
- 只通过统一 ingest CLI 写入批量抽取结果，不直接编辑 KB、索引或矩阵文件。
- 不要为了消除 drift 自动运行 `project sync`；纯 KB 变更应先由用户审阅。
"##;

/// The prompt of the `gap-analysis` workflow.
pub const GAP_ANALYSIS: &'static str = r##"---
name: gap-analysis
description: >-
  基于合规控制、系统事实、项目事实和证据逐项评估符合性，填写控制矩阵并生成差距
  报告。用于用户要求开展等保、ISO、NIST、SOC 2、PCI DSS 或其他框架的差距分析、
  管理 unassessed/met/partial/gap/na 状态、
  记录缺口与负责人、关联事实或证据，或者生成合规差距报告时。
---

# 差距分析

把系统与项目事实对照当前项目的合规框架，逐控制项判定符合性，
关联可追溯材料后把结果写入控制矩阵。

核心模型：`控制矩阵 = 差距分析(合规知识库, 系统事实, 项目事实, 证据)`。

## 前置条件

- 进入已初始化的项目，运行 `complai project show` 获取当前框架，不要硬编码框架名。
- 运行 `complai compliance list --framework <框架>` 确认控制清单已就绪。若控制正文为
  `empty` 或仍有待摘录占位内容，停止评估该项并提示用户导入权威材料，不要臆测要求。

## 工作流

1. **取控制清单**：先只读紧凑索引，再按索引中的实际域分批处理。

   ```sh
   complai compliance list --framework <框架>
   complai compliance list --framework <框架> --domain "<控制域>"
   ```

2. **逐项拉取聚焦包**：将 `<control>` 替换为 list 输出的完整
   `<framework>:<control-id>`，每次只加载一个控制的相关材料。

   ```sh
   complai compliance show <control>
   complai system find --control <control>
   complai fact find --control <control>
   complai evidence find --control <control>
   complai matrix trace <control>
   ```

3. **先关联支撑材料**：只关联上一步确认真实存在且与该控制相关的 ID。

   ```sh
   complai matrix link <control> --fact SYS-F-xxxx
   complai matrix link <control> --project-fact PROJ-F-xxxx
   complai matrix link <control> --evidence EV-xxxx
   ```

4. **判定状态**：
   - `unassessed`：尚未完成评估；它是暂存状态，不是符合性结论。
   - `met`：相关系统/项目事实和证据完整覆盖控制要求，不写 `--gap`。
   - `partial`：部分满足；用 `--gap` 明确说明剩余缺口。
   - `gap`：未满足或证据不足；用 `--gap` 写明缺口。
   - `na`：经评估确认不适用；用 `--gap` 写明不适用理由。

5. **最后写入结论**：支撑材料全部关联成功后再设置状态。

   ```sh
   complai matrix set <control> met --owner "<责任人>"
   complai matrix set <control> <partial|gap|na> --gap "<缺口或不适用理由>" \
     --owner "<责任人>" --remediation "<整改计划或完成情况>"
   ```

6. **产出报告**：运行 `complai gen report`，生成
   `drafts/compliance-report.md`。显式报告剩余 `unassessed` 数量，不要将它们当成 `na`。

## 约束

- 只通过 Complai CLI 读写状态；不要直接编辑 `matrix.yaml`、`evidence.yaml` 或知识库文件。
- 按框架的实际控制域分批处理，避免一次加载过多控制正文。
- 判定必须基于已加载的事实与证据；证据不足时标记 `gap` 而非 `met`，不要臆测。
"##;

} // verus!
