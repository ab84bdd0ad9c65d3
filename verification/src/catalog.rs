//! The spaces, leaves, sources and objects that the cockpit shows.

use vstd::prelude::*;

verus! {

broadcast use vstd::string::group_string_axioms;

/// A part of the cockpit.
#[derive(Clone, Copy, Debug, PartialEq, Eq, Structural)]
pub enum Space {
    Vault,
    Dev,
    Mesh,
    Ops,
    Data,
}

/// The name of a space.
pub open spec fn space_name(space: Space) -> Seq<char> {
    match space {
        Space::Vault => "Vault"@,
        Space::Dev => "Dev"@,
        Space::Mesh => "Mesh"@,
        Space::Ops => "Ops"@,
        Space::Data => "Data"@,
    }
}

/// What a space is for.
pub open spec fn space_purpose(space: Space) -> Seq<char> {
    match space {
        Space::Vault => "Markdown, files, specs, and durable notes"@,
        Space::Dev => "Terminals, git, worktrees, code sessions"@,
        Space::Mesh => "Agents, sessions, models, skills, tickets, routines"@,
        Space::Ops => "Services, deploys, logs, health, approvals"@,
        Space::Data => "Databases, analytics, campaigns, saved reports"@,
    }
}

impl Space {
    /// The spaces in the order in which they are listed.
    #[must_use]
    pub fn all() -> (r: Vec<Space>)
        ensures
            r@ == seq![Space::Vault, Space::Dev, Space::Mesh, Space::Ops, Space::Data],
    {
        vec![Space::Vault, Space::Dev, Space::Mesh, Space::Ops, Space::Data]
    }

    /// The name of the space.
    #[must_use]
    pub fn label(self) -> (r: &'static str)
        ensures
            r@ == space_name(self),
    {
        match self {
            Space::Vault => "Vault",
            Space::Dev => "Dev",
            Space::Mesh => "Mesh",
            Space::Ops => "Ops",
            Space::Data => "Data",
        }
    }

    /// What the space is for.
    #[must_use]
    pub fn description(self) -> (r: &'static str)
        ensures
            r@ == space_purpose(self),
    {
        match self {
            Space::Vault => "Markdown, files, specs, and durable notes",
            Space::Dev => "Terminals, git, worktrees, code sessions",
            Space::Mesh => "Agents, sessions, models, skills, tickets, routines",
            Space::Ops => "Services, deploys, logs, health, approvals",
            Space::Data => "Databases, analytics, campaigns, saved reports",
        }
    }
}

/// Where objects come from.
#[derive(Clone, Debug)]
pub struct Source {
    pub id: &'static str,
    pub space: Space,
    pub label: &'static str,
    pub detail: &'static str,
    pub status: &'static str,
}

/// A tab of the cockpit.
#[derive(Clone, Debug)]
pub struct Leaf {
    pub id: &'static str,
    pub space: Space,
    pub source_id: &'static str,
    pub entity_id: Option<&'static str>,
    pub title: &'static str,
    pub badge: &'static str,
    pub detail: &'static str,
}

/// An object that the cockpit shows.
#[derive(Clone, Debug)]
pub struct Entity {
    pub id: &'static str,
    pub source_id: &'static str,
    pub kind: &'static str,
    pub title: &'static str,
    pub status: &'static str,
    pub owner: &'static str,
    pub updated: &'static str,
    pub summary: &'static str,
    pub actions: Vec<&'static str>,
    pub links: Vec<&'static str>,
}

/// Something that happened.
#[derive(Clone, Debug)]
pub struct Event {
    pub actor: &'static str,
    pub action: &'static str,
    pub target: &'static str,
    pub outcome: &'static str,
    pub at: &'static str,
}

/// Where objects come from.
pub struct SourceView {
    pub id: Seq<char>,
    pub space: Space,
    pub label: Seq<char>,
    pub detail: Seq<char>,
    pub status: Seq<char>,
}

/// A tab of the cockpit.
pub struct LeafView {
    pub id: Seq<char>,
    pub space: Space,
    pub source_id: Seq<char>,
    pub entity_id: Option<Seq<char>>,
    pub title: Seq<char>,
    pub badge: Seq<char>,
    pub detail: Seq<char>,
}

/// An object that the cockpit shows.
#[verifier::ext_equal]
pub struct EntityView {
    pub id: Seq<char>,
    pub source_id: Seq<char>,
    pub kind: Seq<char>,
    pub title: Seq<char>,
    pub status: Seq<char>,
    pub owner: Seq<char>,
    pub updated: Seq<char>,
    pub summary: Seq<char>,
    pub actions: Seq<Seq<char>>,
    pub links: Seq<Seq<char>>,
}

/// Something that happened.
pub struct EventView {
    pub actor: Seq<char>,
    pub action: Seq<char>,
    pub target: Seq<char>,
    pub outcome: Seq<char>,
    pub at: Seq<char>,
}

/// The characters of each text of a list.
pub open spec fn each_text(list: Seq<&'static str>) -> Seq<Seq<char>> {
    Seq::new(list.len(), |i: int| list[i]@)
}

impl View for Source {
    type V = SourceView;

    open spec fn view(&self) -> SourceView {
        SourceView {
            id: self.id@,
            space: self.space,
            label: self.label@,
            detail: self.detail@,
            status: self.status@,
        }
    }
}

impl View for Leaf {
    type V = LeafView;

    open spec fn view(&self) -> LeafView {
        LeafView {
            id: self.id@,
            space: self.space,
            source_id: self.source_id@,
            entity_id: match self.entity_id {
                Some(id) => Some(id@),
                None => None,
            },
            title: self.title@,
            badge: self.badge@,
            detail: self.detail@,
        }
    }
}

impl View for Entity {
    type V = EntityView;

    open spec fn view(&self) -> EntityView {
        EntityView {
            id: self.id@,
            source_id: self.source_id@,
            kind: self.kind@,
            title: self.title@,
            status: self.status@,
            owner: self.owner@,
            updated: self.updated@,
            summary: self.summary@,
            actions: each_text(self.actions@),
            links: each_text(self.links@),
        }
    }
}

impl View for Event {
    type V = EventView;

    open spec fn view(&self) -> EventView {
        EventView {
            actor: self.actor@,
            action: self.action@,
            target: self.target@,
            outcome: self.outcome@,
            at: self.at@,
        }
    }
}

/// The tabs of the cockpit.
#[verifier::opaque]
pub open spec fn leaf_catalog() -> Seq<LeafView> {
    seq![
        LeafView {
            id: "leaf-files"@,
            space: Space::Vault,
            source_id: "vault.files"@,
            entity_id: None,
            title: "Files"@,
            badge: "FILE"@,
            detail: "Vault tree, markdown source, local file edits"@,
        },
        LeafView {
            id: "leaf-chat"@,
            space: Space::Mesh,
            source_id: "mesh.sessions"@,
            entity_id: Some("session-henry"@),
            title: "Vault Chat"@,
            badge: "CHAT"@,
            detail: "Agent transcript and Tides Mesh turns"@,
        },
        LeafView {
            id: "leaf-terminal"@,
            space: Space::Dev,
            source_id: "dev.terminals"@,
            entity_id: Some("term-shell-1"@),
            title: "Terminal: zsh"@,
            badge: "TERM"@,
            detail: "Future native PTY surface for workflow execution"@,
        },
        LeafView {
            id: "leaf-model"@,
            space: Space::Mesh,
            source_id: "mesh.models"@,
            entity_id: Some("model-gpt55"@),
            title: "Model"@,
            badge: "MODL"@,
            detail: "Provider, model, and thinking-level routing"@,
        },
        LeafView {
            id: "leaf-tickets"@,
            space: Space::Mesh,
            source_id: "mesh.tickets"@,
            entity_id: Some("THO-17"@),
            title: "Tickets"@,
            badge: "TICK"@,
            detail: "Markdown-native issues and task state"@,
        },
        LeafView {
            id: "leaf-skills"@,
            space: Space::Mesh,
            source_id: "mesh.skills"@,
            entity_id: Some("skill-cloudflare"@),
            title: "Skills"@,
            badge: "SKIL"@,
            detail: "Capabilities, MCP servers, and action inventory"@,
        },
        LeafView {
            id: "leaf-crons"@,
            space: Space::Mesh,
            source_id: "mesh.routines"@,
            entity_id: Some("routine-vaultkeeper"@),
            title: "Crons"@,
            badge: "CRON"@,
            detail: "Routines, daemon health, and run logs"@,
        },
        LeafView {
            id: "leaf-living"@,
            space: Space::Data,
            source_id: "data.campaigns"@,
            entity_id: Some("report-content"@),
            title: "Living"@,
            badge: "LIVE"@,
            detail: "Editorial dashboard over company signals"@,
        },
        LeafView {
            id: "leaf-ops"@,
            space: Space::Ops,
            source_id: "ops.services"@,
            entity_id: Some("svc-pi-cockpit"@),
            title: "Services"@,
            badge: "OPS"@,
            detail: "Service health, logs, deploys, approvals"@,
        },
    ]
}

/// The tabs of the cockpit.
#[must_use]
pub fn leaves() -> (r: Vec<Leaf>)
    ensures
        r@.len() == leaf_catalog().len(),
        forall|i: int| 0 <= i < r@.len() ==> (#[trigger] r@[i])@ == leaf_catalog()[i],
{
    let r: Vec<Leaf> = vec![
        Leaf {
            id: "leaf-files",
            space: Space::Vault,
            source_id: "vault.files",
            entity_id: None,
            title: "Files",
            badge: "FILE",
            detail: "Vault tree, markdown source, local file edits",
        },
        Leaf {
            id: "leaf-chat",
            space: Space::Mesh,
            source_id: "mesh.sessions",
            entity_id: Some("session-henry"),
            title: "Vault Chat",
            badge: "CHAT",
            detail: "Agent transcript and Tides Mesh turns",
        },
        Leaf {
            id: "leaf-terminal",
            space: Space::Dev,
            source_id: "dev.terminals",
            entity_id: Some("term-shell-1"),
            title: "Terminal: zsh",
            badge: "TERM",
            detail: "Future native PTY surface for workflow execution",
        },
        Leaf {
            id: "leaf-model",
            space: Space::Mesh,
            source_id: "mesh.models",
            entity_id: Some("model-gpt55"),
            title: "Model",
            badge: "MODL",
            detail: "Provider, model, and thinking-level routing",
        },
        Leaf {
            id: "leaf-tickets",
            space: Space::Mesh,
            source_id: "mesh.tickets",
            entity_id: Some("THO-17"),
            title: "Tickets",
            badge: "TICK",
            detail: "Markdown-native issues and task state",
        },
        Leaf {
            id: "leaf-skills",
            space: Space::Mesh,
            source_id: "mesh.skills",
            entity_id: Some("skill-cloudflare"),
            title: "Skills",
            badge: "SKIL",
            detail: "Capabilities, MCP servers, and action inventory",
        },
        Leaf {
            id: "leaf-crons",
            space: Space::Mesh,
            source_id: "mesh.routines",
            entity_id: Some("routine-vaultkeeper"),
            title: "Crons",
            badge: "CRON",
            detail: "Routines, daemon health, and run logs",
        },
        Leaf {
            id: "leaf-living",
            space: Space::Data,
            source_id: "data.campaigns",
            entity_id: Some("report-content"),
            title: "Living",
            badge: "LIVE",
            detail: "Editorial dashboard over company signals",
        },
        Leaf {
            id: "leaf-ops",
            space: Space::Ops,
            source_id: "ops.services",
            entity_id: Some("svc-pi-cockpit"),
            title: "Services",
            badge: "OPS",
            detail: "Service health, logs, deploys, approvals",
        },
    ];
    proof {
        reveal(leaf_catalog);
        assert(r@[0]@ =~= leaf_catalog()[0]);
        assert(r@[1]@ =~= leaf_catalog()[1]);
        assert(r@[2]@ =~= leaf_catalog()[2]);
        assert(r@[3]@ =~= leaf_catalog()[3]);
        assert(r@[4]@ =~= leaf_catalog()[4]);
        assert(r@[5]@ =~= leaf_catalog()[5]);
        assert(r@[6]@ =~= leaf_catalog()[6]);
        assert(r@[7]@ =~= leaf_catalog()[7]);
        assert(r@[8]@ =~= leaf_catalog()[8]);
    }
    r
}

/// The sources of the cockpit.
#[verifier::opaque]
pub open spec fn source_catalog() -> Seq<SourceView> {
    seq![
        SourceView {
            id: "vault.files"@,
            space: Space::Vault,
            label: "Local Vault"@,
            detail: "Markdown, specs, files, frontmatter"@,
            status: "live"@,
        },
        SourceView {
            id: "vault.notes"@,
            space: Space::Vault,
            label: "Notes Index"@,
            detail: "Daily notes, briefs, SOPs, scratchpads"@,
            status: "indexed"@,
        },
        SourceView {
            id: "dev.git"@,
            space: Space::Dev,
            label: "Git + Worktrees"@,
            detail: "Repos, branches, PR context, dirty state"@,
            status: "connected"@,
        },
        SourceView {
            id: "dev.terminals"@,
            space: Space::Dev,
            label: "Terminals"@,
            detail: "PTY sessions, command runs, logs"@,
            status: "planned"@,
        },
        SourceView {
            id: "mesh.sessions"@,
            space: Space::Mesh,
            label: "Agent Sessions"@,
            detail: "Tides Mesh and ACP-compatible sessions"@,
            status: "live model"@,
        },
        SourceView {
            id: "mesh.models"@,
            space: Space::Mesh,
            label: "Models"@,
            detail: "Provider, model, thinking level, routing"@,
            status: "ready"@,
        },
        SourceView {
            id: "mesh.skills"@,
            space: Space::Mesh,
            label: "Skills + MCP"@,
            detail: "Callable capabilities and tool servers"@,
            status: "indexed"@,
        },
        SourceView {
            id: "mesh.routines"@,
            space: Space::Mesh,
            label: "Routines / Crons"@,
            detail: "Recurring agent jobs and run logs"@,
            status: "scheduler"@,
        },
        SourceView {
            id: "mesh.tickets"@,
            space: Space::Mesh,
            label: "Tickets"@,
            detail: "Markdown-backed issues and task state"@,
            status: "vault-native"@,
        },
        SourceView {
            id: "ops.services"@,
            space: Space::Ops,
            label: "Services"@,
            detail: "Railway, Cloudflare, launchd, daemons"@,
            status: "observed"@,
        },
        SourceView {
            id: "ops.approvals"@,
            space: Space::Ops,
            label: "Approvals"@,
            detail: "Deploys, publishing, data mutation gates"@,
            status: "required"@,
        },
        SourceView {
            id: "data.databases"@,
            space: Space::Data,
            label: "Databases"@,
            detail: "Postgres, Supabase, analytics stores"@,
            status: "connectors"@,
        },
        SourceView {
            id: "data.campaigns"@,
            space: Space::Data,
            label: "Campaign Analytics"@,
            detail: "Content, finance, campaign performance"@,
            status: "reports"@,
        },
    ]
}

/// The sources of the cockpit.
#[must_use]
pub fn sources() -> (r: Vec<Source>)
    ensures
        r@.len() == source_catalog().len(),
        forall|i: int| 0 <= i < r@.len() ==> (#[trigger] r@[i])@ == source_catalog()[i],
{
    let r: Vec<Source> = vec![
        Source {
            id: "vault.files",
            space: Space::Vault,
            label: "Local Vault",
            detail: "Markdown, specs, files, frontmatter",
            status: "live",
        },
        Source {
            id: "vault.notes",
            space: Space::Vault,
            label: "Notes Index",
            detail: "Daily notes, briefs, SOPs, scratchpads",
            status: "indexed",
        },
        Source {
            id: "dev.git",
            space: Space::Dev,
            label: "Git + Worktrees",
            detail: "Repos, branches, PR context, dirty state",
            status: "connected",
        },
        Source {
            id: "dev.terminals",
            space: Space::Dev,
            label: "Terminals",
            detail: "PTY sessions, command runs, logs",
            status: "planned",
        },
        Source {
            id: "mesh.sessions",
            space: Space::Mesh,
            label: "Agent Sessions",
            detail: "Tides Mesh and ACP-compatible sessions",
            status: "live model",
        },
        Source {
            id: "mesh.models",
            space: Space::Mesh,
            label: "Models",
            detail: "Provider, model, thinking level, routing",
            status: "ready",
        },
        Source {
            id: "mesh.skills",
            space: Space::Mesh,
            label: "Skills + MCP",
            detail: "Callable capabilities and tool servers",
            status: "indexed",
        },
        Source {
            id: "mesh.routines",
            space: Space::Mesh,
            label: "Routines / Crons",
            detail: "Recurring agent jobs and run logs",
            status: "scheduler",
        },
        Source {
            id: "mesh.tickets",
            space: Space::Mesh,
            label: "Tickets",
            detail: "Markdown-backed issues and task state",
            status: "vault-native",
        },
        Source {
            id: "ops.services",
            space: Space::Ops,
            label: "Services",
            detail: "Railway, Cloudflare, launchd, daemons",
            status: "observed",
        },
        Source {
            id: "ops.approvals",
            space: Space::Ops,
            label: "Approvals",
            detail: "Deploys, publishing, data mutation gates",
            status: "required",
        },
        Source {
            id: "data.databases",
            space: Space::Data,
            label: "Databases",
            detail: "Postgres, Supabase, analytics stores",
            status: "connectors",
        },
        Source {
            id: "data.campaigns",
            space: Space::Data,
            label: "Campaign Analytics",
            detail: "Content, finance, campaign performance",
            status: "reports",
        },
    ];
    proof {
        reveal(source_catalog);
        assert(r@[0]@ =~= source_catalog()[0]);
        assert(r@[1]@ =~= source_catalog()[1]);
        assert(r@[2]@ =~= source_catalog()[2]);
        assert(r@[3]@ =~= source_catalog()[3]);
        assert(r@[4]@ =~= source_catalog()[4]);
        assert(r@[5]@ =~= source_catalog()[5]);
        assert(r@[6]@ =~= source_catalog()[6]);
        assert(r@[7]@ =~= source_catalog()[7]);
        assert(r@[8]@ =~= source_catalog()[8]);
        assert(r@[9]@ =~= source_catalog()[9]);
        assert(r@[10]@ =~= source_catalog()[10]);
        assert(r@[11]@ =~= source_catalog()[11]);
        assert(r@[12]@ =~= source_catalog()[12]);
    }
    r
}

/// The objects of the cockpit.
#[verifier::opaque]
pub open spec fn entity_catalog() -> Seq<EntityView> {
    seq![
        EntityView {
            id: "note-prd"@,
            source_id: "vault.notes"@,
            kind: "Note"@,
            title: "Ocean GUI architecture spec"@,
            status: "draft"@,
            owner: "Smaths"@,
            updated: "now"@,
            summary: "Markdown source of truth for the Rust cockpit shape."@,
            actions: seq![
                "Open note"@,
                "Ask Charlotte to refine"@,
                "Create implementation tickets"@,
            ],
            links: seq!["docs/Ocean GUI.md"@, "AGENTS.md"@],
        },
        EntityView {
            id: "repo-ocean_gui"@,
            source_id: "dev.git"@,
            kind: "Repository"@,
            title: "Ocean GUI"@,
            status: "dirty"@,
            owner: "Rev"@,
            updated: "2m"@,
            summary: "Current Rust prototype with workspace and cockpit UI."@,
            actions: seq!["Open terminal"@, "Show diff"@, "Ask Rev for review"@],
            links: seq!["/Users/risingtidesdev/dev/Ocean GUI"@],
        },
        EntityView {
            id: "term-shell-1"@,
            source_id: "dev.terminals"@,
            kind: "PTY"@,
            title: "Ocean GUI build shell"@,
            status: "idle"@,
            owner: "Brick"@,
            updated: "5m"@,
            summary: "Future native terminal pane backed by portable-pty and terminal grid state."@,
            actions: seq!["Attach"@, "Run cargo test"@, "Summarize session"@],
            links: seq!["target/debug/ocean_gui"@],
        },
        EntityView {
            id: "session-henry"@,
            source_id: "mesh.sessions"@,
            kind: "Agent"@,
            title: "Henry / WritersRoom"@,
            status: "active"@,
            owner: "Tides Mesh"@,
            updated: "18s"@,
            summary: "Drafting and editorial synthesis agent connected to vault notes."@,
            actions: seq!["Send message"@, "Open transcript"@, "Assign note"@],
            links: seq!["~/.pi/agent/sessions"@, "WritersRoom"@],
        },
        EntityView {
            id: "session-brick"@,
            source_id: "mesh.sessions"@,
            kind: "Agent"@,
            title: "Brick / Backend"@,
            status: "available"@,
            owner: "Tides Mesh"@,
            updated: "1m"@,
            summary: "Backend, APIs, connectors, database work, and runtime tasks."@,
            actions: seq!["Assign task"@, "Open terminal"@, "Request handoff"@],
            links: seq!["TIDES-MESH BRICK"@],
        },
        EntityView {
            id: "model-gpt55"@,
            source_id: "mesh.models"@,
            kind: "Model"@,
            title: "openai-codex/gpt-5.5:xhigh"@,
            status: "judgment gate"@,
            owner: "Orchestrator"@,
            updated: "today"@,
            summary: "High-judgment model profile for orchestration, review, and risky decisions."@,
            actions: seq!["Route Rev"@, "Route OWL"@, "Compare cost"@],
            links: seq!["model profiles"@],
        },
        EntityView {
            id: "skill-cloudflare"@,
            source_id: "mesh.skills"@,
            kind: "Skill"@,
            title: "Cloudflare deploy"@,
            status: "available"@,
            owner: "Brick"@,
            updated: "today"@,
            summary: "Deploy Workers, Pages, R2, routes, and edge services with approval gates."@,
            actions: seq!["Load skill"@, "Attach to task"@, "Open docs"@],
            links: seq!["~/.codex/skills/cloudflare-deploy"@],
        },
        EntityView {
            id: "routine-vaultkeeper"@,
            source_id: "mesh.routines"@,
            kind: "Routine"@,
            title: "Vaultkeeper heartbeat"@,
            status: "scheduled"@,
            owner: "Thoth"@,
            updated: "hourly"@,
            summary: "Recurring vault health, orphan detection, and config validation job."@,
            actions: seq!["Run now"@, "View log"@, "Pause routine"@],
            links: seq!["~/.pi/agent/routines/vault-keeper"@],
        },
        EntityView {
            id: "THO-17"@,
            source_id: "mesh.tickets"@,
            kind: "Ticket"@,
            title: "Native Ocean GUI cockpit shell"@,
            status: "in_progress"@,
            owner: "Pixel + Brick"@,
            updated: "now"@,
            summary: "Build the first unified cockpit over vault, mesh, terminal, and data sources."@,
            actions: seq!["Focus ticket"@, "Create branch"@, "Ask Rev to review"@],
            links: seq!["6-Agent/tickets/THO-17.md"@],
        },
        EntityView {
            id: "svc-pi-cockpit"@,
            source_id: "ops.services"@,
            kind: "Service"@,
            title: "PI Cockpit Hub"@,
            status: "running"@,
            owner: "Ops"@,
            updated: "30s"@,
            summary: "Local hub pattern Ocean GUI will replace with native Rust state."@,
            actions: seq!["View health"@, "Open logs"@, "Restart with approval"@],
            links: seq!["http://localhost:3099/health"@],
        },
        EntityView {
            id: "approval-deploy"@,
            source_id: "ops.approvals"@,
            kind: "Approval"@,
            title: "Deploy dashboard worker"@,
            status: "waiting"@,
            owner: "Human"@,
            updated: "12m"@,
            summary: "Production-risk deploy requires explicit human approval before execution."@,
            actions: seq!["Approve"@, "Reject"@, "Ask Rev for checklist"@],
            links: seq!["Cloudflare Worker"@, "Rev review"@],
        },
        EntityView {
            id: "db-campaign"@,
            source_id: "data.databases"@,
            kind: "Database"@,
            title: "Campaign Postgres"@,
            status: "connected"@,
            owner: "Analytics"@,
            updated: "4m"@,
            summary: "Operational data source for campaign, content, finance, and company dashboards."@,
            actions: seq!["Run query"@, "Save report"@, "Ask Charlotte to interpret"@],
            links: seq!["DATABASE_URL"@, "campaign_hub"@],
        },
        EntityView {
            id: "report-content"@,
            source_id: "data.campaigns"@,
            kind: "Report"@,
            title: "Content pipeline health"@,
            status: "green"@,
            owner: "Rising Tides"@,
            updated: "9m"@,
            summary: "Campaign/content throughput, stuck jobs, upload stats, and revenue-adjacent signals."@,
            actions: seq!["Refresh"@, "Export note"@, "Schedule morning digest"@],
            links: seq!["TideDash"@, "Content Lab"@],
        },
    ]
}

/// The objects of the cockpit.
#[must_use]
pub fn entities() -> (r: Vec<Entity>)
    ensures
        r@.len() == entity_catalog().len(),
        forall|i: int| 0 <= i < r@.len() ==> (#[trigger] r@[i])@ == entity_catalog()[i],
{
    let r: Vec<Entity> = vec![
        Entity {
            id: "note-prd",
            source_id: "vault.notes",
            kind: "Note",
            title: "Ocean GUI architecture spec",
            status: "draft",
            owner: "Smaths",
            updated: "now",
            summary: "Markdown source of truth for the Rust cockpit shape.",
            actions: vec![
                "Open note",
                "Ask Charlotte to refine",
                "Create implementation tickets",
            ],
            links: vec!["docs/Ocean GUI.md", "AGENTS.md"],
        },
        Entity {
            id: "repo-ocean_gui",
            source_id: "dev.git",
            kind: "Repository",
            title: "Ocean GUI",
            status: "dirty",
            owner: "Rev",
            updated: "2m",
            summary: "Current Rust prototype with workspace and cockpit UI.",
            actions: vec!["Open terminal", "Show diff", "Ask Rev for review"],
            links: vec!["/Users/risingtidesdev/dev/Ocean GUI"],
        },
        Entity {
            id: "term-shell-1",
            source_id: "dev.terminals",
            kind: "PTY",
            title: "Ocean GUI build shell",
            status: "idle",
            owner: "Brick",
            updated: "5m",
            summary: "Future native terminal pane backed by portable-pty and terminal grid state.",
            actions: vec!["Attach", "Run cargo test", "Summarize session"],
            links: vec!["target/debug/ocean_gui"],
        },
        Entity {
            id: "session-henry",
            source_id: "mesh.sessions",
            kind: "Agent",
            title: "Henry / WritersRoom",
            status: "active",
            owner: "Tides Mesh",
            updated: "18s",
            summary: "Drafting and editorial synthesis agent connected to vault notes.",
            actions: vec!["Send message", "Open transcript", "Assign note"],
            links: vec!["~/.pi/agent/sessions", "WritersRoom"],
        },
        Entity {
            id: "session-brick",
            source_id: "mesh.sessions",
            kind: "Agent",
            title: "Brick / Backend",
            status: "available",
            owner: "Tides Mesh",
            updated: "1m",
            summary: "Backend, APIs, connectors, database work, and runtime tasks.",
            actions: vec!["Assign task", "Open terminal", "Request handoff"],
            links: vec!["TIDES-MESH BRICK"],
        },
        Entity {
            id: "model-gpt55",
            source_id: "mesh.models",
            kind: "Model",
            title: "openai-codex/gpt-5.5:xhigh",
            status: "judgment gate",
            owner: "Orchestrator",
            updated: "today",
            summary: "High-judgment model profile for orchestration, review, and risky decisions.",
            actions: vec!["Route Rev", "Route OWL", "Compare cost"],
            links: vec!["model profiles"],
        },
        Entity {
            id: "skill-cloudflare",
            source_id: "mesh.skills",
            kind: "Skill",
            title: "Cloudflare deploy",
            status: "available",
            owner: "Brick",
            updated: "today",
            summary: "Deploy Workers, Pages, R2, routes, and edge services with approval gates.",
            actions: vec!["Load skill", "Attach to task", "Open docs"],
            links: vec!["~/.codex/skills/cloudflare-deploy"],
        },
        Entity {
            id: "routine-vaultkeeper",
            source_id: "mesh.routines",
            kind: "Routine",
            title: "Vaultkeeper heartbeat",
            status: "scheduled",
            owner: "Thoth",
            updated: "hourly",
            summary: "Recurring vault health, orphan detection, and config validation job.",
            actions: vec!["Run now", "View log", "Pause routine"],
            links: vec!["~/.pi/agent/routines/vault-keeper"],
        },
        Entity {
            id: "THO-17",
            source_id: "mesh.tickets",
            kind: "Ticket",
            title: "Native Ocean GUI cockpit shell",
            status: "in_progress",
            owner: "Pixel + Brick",
            updated: "now",
            summary: "Build the first unified cockpit over vault, mesh, terminal, and data sources.",
            actions: vec!["Focus ticket", "Create branch", "Ask Rev to review"],
            links: vec!["6-Agent/tickets/THO-17.md"],
        },
        Entity {
            id: "svc-pi-cockpit",
            source_id: "ops.services",
            kind: "Service",
            title: "PI Cockpit Hub",
            status: "running",
            owner: "Ops",
            updated: "30s",
            summary: "Local hub pattern Ocean GUI will replace with native Rust state.",
            actions: vec!["View health", "Open logs", "Restart with approval"],
            links: vec!["http://localhost:3099/health"],
        },
        Entity {
            id: "approval-deploy",
            source_id: "ops.approvals",
            kind: "Approval",
            title: "Deploy dashboard worker",
            status: "waiting",
            owner: "Human",
            updated: "12m",
            summary: "Production-risk deploy requires explicit human approval before execution.",
            actions: vec!["Approve", "Reject", "Ask Rev for checklist"],
            links: vec!["Cloudflare Worker", "Rev review"],
        },
        Entity {
            id: "db-campaign",
            source_id: "data.databases",
            kind: "Database",
            title: "Campaign Postgres",
            status: "connected",
            owner: "Analytics",
            updated: "4m",
            summary: "Operational data source for campaign, content, finance, and company dashboards.",
            actions: vec!["Run query", "Save report", "Ask Charlotte to interpret"],
            links: vec!["DATABASE_URL", "campaign_hub"],
        },
        Entity {
            id: "report-content",
            source_id: "data.campaigns",
            kind: "Report",
            title: "Content pipeline health",
            status: "green",
            owner: "Rising Tides",
            updated: "9m",
            summary: "Campaign/content throughput, stuck jobs, upload stats, and revenue-adjacent signals.",
            actions: vec!["Refresh", "Export note", "Schedule morning digest"],
            links: vec!["TideDash", "Content Lab"],
        },
    ];
    proof {
        reveal(entity_catalog);
        assert(r@[0]@ =~= entity_catalog()[0]);
        assert(r@[1]@ =~= entity_catalog()[1]);
        assert(r@[2]@ =~= entity_catalog()[2]);
        assert(r@[3]@ =~= entity_catalog()[3]);
        assert(r@[4]@ =~= entity_catalog()[4]);
        assert(r@[5]@ =~= entity_catalog()[5]);
        assert(r@[6]@ =~= entity_catalog()[6]);
        assert(r@[7]@ =~= entity_catalog()[7]);
        assert(r@[8]@ =~= entity_catalog()[8]);
        assert(r@[9]@ =~= entity_catalog()[9]);
        assert(r@[10]@ =~= entity_catalog()[10]);
        assert(r@[11]@ =~= entity_catalog()[11]);
        assert(r@[12]@ =~= entity_catalog()[12]);
    }
    r
}

/// What happened lately.
#[verifier::opaque]
pub open spec fn event_catalog() -> Seq<EventView> {
    seq![
        EventView {
            at: "now"@,
            actor: "Ocean GUI"@,
            action: "space.open"@,
            target: "Mesh"@,
            outcome: "agent cockpit ready"@,
        },
        EventView {
            at: "1m"@,
            actor: "Henry"@,
            action: "note.create"@,
            target: "Ocean GUI architecture spec"@,
            outcome: "draft note available"@,
        },
        EventView {
            at: "4m"@,
            actor: "Brick"@,
            action: "db.query"@,
            target: "Campaign Postgres"@,
            outcome: "12 rows returned"@,
        },
        EventView {
            at: "7m"@,
            actor: "Rev"@,
            action: "review.request"@,
            target: "repo-ocean_gui"@,
            outcome: "pending"@,
        },
        EventView {
            at: "12m"@,
            actor: "Ops"@,
            action: "approval.request"@,
            target: "Deploy dashboard worker"@,
            outcome: "waiting for human"@,
        },
    ]
}

/// What happened lately.
#[must_use]
pub fn events() -> (r: Vec<Event>)
    ensures
        r@.len() == event_catalog().len(),
        forall|i: int| 0 <= i < r@.len() ==> (#[trigger] r@[i])@ == event_catalog()[i],
{
    let r: Vec<Event> = vec![
        Event {
            at: "now",
            actor: "Ocean GUI",
            action: "space.open",
            target: "Mesh",
            outcome: "agent cockpit ready",
        },
        Event {
            at: "1m",
            actor: "Henry",
            action: "note.create",
            target: "Ocean GUI architecture spec",
            outcome: "draft note available",
        },
        Event {
            at: "4m",
            actor: "Brick",
            action: "db.query",
            target: "Campaign Postgres",
            outcome: "12 rows returned",
        },
        Event {
            at: "7m",
            actor: "Rev",
            action: "review.request",
            target: "repo-ocean_gui",
            outcome: "pending",
        },
        Event {
            at: "12m",
            actor: "Ops",
            action: "approval.request",
            target: "Deploy dashboard worker",
            outcome: "waiting for human",
        },
    ];
    proof {
        reveal(event_catalog);
        assert(r@[0]@ =~= event_catalog()[0]);
        assert(r@[1]@ =~= event_catalog()[1]);
        assert(r@[2]@ =~= event_catalog()[2]);
        assert(r@[3]@ =~= event_catalog()[3]);
        assert(r@[4]@ =~= event_catalog()[4]);
    }
    r
}

} // verus!
