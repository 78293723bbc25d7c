//! What the terminal multiplexers have in common.

use vstd::prelude::*;
use vstd::string::StringExecFns;

use crate::number::decimal;
use crate::text::same;
use crate::zellij;

verus! {

// ---------------------------------------------------------------------------
// Panes
// ---------------------------------------------------------------------------

/// A pane or a surface, whichever multiplexer it belongs to.
#[derive(Debug, Clone)]
pub struct PaneInfo {
    pub id: String,
    pub title: String,
    pub is_plugin: bool,
    pub is_focused: bool,
    pub running: bool,
}

/// The contents of a [`PaneInfo`].
pub ghost struct PaneView {
    pub id: Seq<char>,
    pub title: Seq<char>,
    pub is_plugin: bool,
    pub is_focused: bool,
    pub running: bool,
}

impl View for PaneInfo {
    type V = PaneView;

    open spec fn view(&self) -> PaneView {
        PaneView {
            id: self.id@,
            title: self.title@,
            is_plugin: self.is_plugin,
            is_focused: self.is_focused,
            running: self.running,
        }
    }
}

/// The contents of a list of panes.
pub open spec fn pane_views(v: Seq<PaneInfo>) -> Seq<PaneView> {
    v.map_values(|p: PaneInfo| p@)
}

/// A surface of cmux.
#[derive(Debug)]
pub struct Surface {
    pub id: String,
    pub title: String,
    pub surface_type: String,
    pub is_focused: bool,
}

/// The contents of a [`Surface`].
pub ghost struct SurfaceView {
    pub id: Seq<char>,
    pub title: Seq<char>,
    pub surface_type: Seq<char>,
    pub is_focused: bool,
}

impl View for Surface {
    type V = SurfaceView;

    open spec fn view(&self) -> SurfaceView {
        SurfaceView {
            id: self.id@,
            title: self.title@,
            surface_type: self.surface_type@,
            is_focused: self.is_focused,
        }
    }
}

/// The contents of a list of surfaces.
pub open spec fn surface_views(v: Seq<Surface>) -> Seq<SurfaceView> {
    v.map_values(|s: Surface| s@)
}

/// A surface of cmux as a pane. It runs for as long as it is listed.
pub open spec fn surface_pane(s: SurfaceView) -> PaneView {
    PaneView {
        id: s.id,
        title: s.title,
        is_plugin: s.surface_type != "terminal"@,
        is_focused: s.is_focused,
        running: true,
    }
}

/// A pane of Zellij as a pane.
pub open spec fn zellij_pane(p: zellij::PaneInfo) -> PaneView {
    PaneView {
        id: zellij::pane_name(p.is_plugin, p.id),
        title: p.title@,
        is_plugin: p.is_plugin,
        is_focused: p.is_focused,
        running: !p.exited,
    }
}

// ---------------------------------------------------------------------------
// Multiplexers
// ---------------------------------------------------------------------------

/// A terminal multiplexer.
pub trait Backend {
    /// The id of a pane as the multiplexer writes it.
    spec fn normalized(&self, input: Seq<char>) -> Seq<char>;

    /// The name of the multiplexer.
    spec fn name_text(&self) -> Seq<char>;

    /// The environment variable that names the session.
    spec fn session_variable_text(&self) -> Seq<char>;

    /// Turns the id of a pane, as a user writes it, into how the multiplexer
    /// writes it.
    fn normalize_id(&self, input: &str) -> (r: String)
        ensures
            r@ == self.normalized(input@),
    ;

    /// The environment variable that names the session.
    fn session_variable(&self) -> (r: &'static str)
        ensures
            r@ == self.session_variable_text(),
    ;

    /// The name of the session, from the value of its environment variable.
    fn session_name(&self, value: Option<String>) -> (r: Result<String, String>)
        ensures
            match value {
                Some(v) => r matches Ok(name) && name@ == v@,
                None => r matches Err(why) && why@ == self.session_variable_text() + " not set"@,
            },
    ;

    /// The name of the multiplexer.
    fn backend_name(&self) -> (r: &'static str)
        ensures
            r@ == self.name_text(),
    ;
}

/// The multiplexer cmux.
pub struct CmuxBackend;

impl CmuxBackend {
    /// The panes, from the surfaces that cmux lists.
    #[verifier::loop_isolation(false)]
    pub fn list_panes(&self, surfaces: &Vec<Surface>) -> (r: Vec<PaneInfo>)
        ensures
            pane_views(r@) == surface_views(surfaces@).map_values(|s: SurfaceView| surface_pane(s)),
    {
        let mut out: Vec<PaneInfo> = Vec::new();
        let mut i: usize = 0;
        while i < surfaces.len()
            invariant
                i <= surfaces@.len(),
                out@.len() == i,
                forall|k: int| 0 <= k < i ==> (#[trigger] out@[k])@ == surface_pane(surfaces@[k]@),
            decreases surfaces@.len() - i,
        {
            let s = &surfaces[i];
            out.push(
                PaneInfo {
                    id: s.id.clone(),
                    title: s.title.clone(),
                    is_plugin: !same(s.surface_type.as_str(), "terminal"),
                    is_focused: s.is_focused,
                    running: true,
                },
            );
            i = i + 1;
        }
        assert(pane_views(out@) =~= surface_views(surfaces@).map_values(
            |s: SurfaceView| surface_pane(s),
        ));
        out
    }
}

impl Backend for CmuxBackend {
    open spec fn normalized(&self, input: Seq<char>) -> Seq<char> {
        input
    }

    open spec fn name_text(&self) -> Seq<char> {
        "cmux"@
    }

    open spec fn session_variable_text(&self) -> Seq<char> {
        "CMUX_WORKSPACE_ID"@
    }

    fn normalize_id(&self, input: &str) -> (r: String) {
        input.to_owned()
    }

    fn session_variable(&self) -> (r: &'static str) {
        "CMUX_WORKSPACE_ID"
    }

    fn session_name(&self, value: Option<String>) -> (r: Result<String, String>) {
        match value {
            Some(v) => Ok(v),
            None => Err("CMUX_WORKSPACE_ID".to_owned().concat(" not set")),
        }
    }

    fn backend_name(&self) -> (r: &'static str) {
        "cmux"
    }
}

/// The multiplexer Zellij.
pub struct ZellijBackend;

impl ZellijBackend {
    /// The panes, from those that Zellij lists.
    #[verifier::loop_isolation(false)]
    pub fn list_panes(&self, panes: &Vec<zellij::PaneInfo>) -> (r: Vec<PaneInfo>)
        ensures
            pane_views(r@) == panes@.map_values(|p: zellij::PaneInfo| zellij_pane(p)),
    {
        let mut out: Vec<PaneInfo> = Vec::new();
        let mut i: usize = 0;
        while i < panes.len()
            invariant
                i <= panes@.len(),
                out@.len() == i,
                forall|k: int| 0 <= k < i ==> (#[trigger] out@[k])@ == zellij_pane(panes@[k]),
            decreases panes@.len() - i,
        {
            let p = &panes[i];
            out.push(
                PaneInfo {
                    id: p.pane_id(),
                    title: p.title.clone(),
                    is_plugin: p.is_plugin,
                    is_focused: p.is_focused,
                    running: !p.exited,
                },
            );
            i = i + 1;
        }
        assert(pane_views(out@) =~= panes@.map_values(|p: zellij::PaneInfo| zellij_pane(p)));
        out
    }
}

impl Backend for ZellijBackend {
    open spec fn normalized(&self, input: Seq<char>) -> Seq<char> {
        zellij::normalized(input)
    }

    open spec fn name_text(&self) -> Seq<char> {
        "zellij"@
    }

    open spec fn session_variable_text(&self) -> Seq<char> {
        "ZELLIJ_SESSION_NAME"@
    }

    fn normalize_id(&self, input: &str) -> (r: String) {
        zellij::normalize_pane_id(input)
    }

    fn session_variable(&self) -> (r: &'static str) {
        "ZELLIJ_SESSION_NAME"
    }

    fn session_name(&self, value: Option<String>) -> (r: Result<String, String>) {
        match value {
            Some(v) => Ok(v),
            None => Err("ZELLIJ_SESSION_NAME".to_owned().concat(" not set")),
        }
    }

    fn backend_name(&self) -> (r: &'static str) {
        "zellij"
    }
}

/// A multiplexer that was found.
#[derive(Debug, Clone, Copy, PartialEq, Eq, Structural)]
pub enum Detected {
    Cmux,
    Zellij,
}

/// The multiplexer around the process, from whether the variables
/// `CMUX_SURFACE_ID` and `ZELLIJ` are set. cmux comes first.
pub fn detect(cmux_surface_id: bool, zellij: bool) -> (r: Option<Detected>)
    ensures
        r == (if cmux_surface_id {
            Some(Detected::Cmux)
        } else if zellij {
            Some(Detected::Zellij)
        } else {
            None
        }),
{
    if cmux_surface_id {
        Some(Detected::Cmux)
    } else if zellij {
        Some(Detected::Zellij)
    } else {
        None
    }
}

/// A surface is given as a pane with its own id and title, and as focused where
/// it is; every surface but a terminal counts as a plugin, and all run.
pub proof fn surfaces_are_given_as_panes(s: SurfaceView)
    ensures
        surface_pane(s).id == s.id,
        surface_pane(s).title == s.title,
        surface_pane(s).is_focused == s.is_focused,
        surface_pane(s).running,
        surface_pane(s).is_plugin <==> s.surface_type != "terminal"@,
{
}

/// A pane of Zellij is given with its name, its own title, and as focused where
/// it is; it runs for as long as its program has not ended.
pub proof fn zellij_panes_are_given_as_panes(p: zellij::PaneInfo)
    ensures
        p.is_plugin ==> zellij_pane(p).id == "plugin_"@ + decimal(p.id as nat),
        !p.is_plugin ==> zellij_pane(p).id == "terminal_"@ + decimal(p.id as nat),
        zellij_pane(p).title == p.title@,
        zellij_pane(p).is_plugin == p.is_plugin,
        zellij_pane(p).is_focused == p.is_focused,
        zellij_pane(p).running == !p.exited,
{
    reveal_strlit("plugin");
    reveal_strlit("plugin_");
    reveal_strlit("terminal");
    reveal_strlit("terminal_");
    reveal_strlit("_");
    assert("plugin"@ + "_"@ =~= "plugin_"@);
    assert("terminal"@ + "_"@ =~= "terminal_"@);
}

/// Ids of cmux are taken as they are, and those of Zellij as its panes are
/// named.
pub proof fn ids_are_as_the_multiplexer_writes_them(input: Seq<char>, n: u64)
    ensures
        CmuxBackend.normalized(input) == input,
        ZellijBackend.normalized(decimal(n as nat)) == "terminal_"@ + decimal(n as nat),
        ZellijBackend.normalized("terminal_"@ + decimal(n as nat)) == "terminal_"@ + decimal(
            n as nat,
        ),
        ZellijBackend.normalized("plugin_"@ + decimal(n as nat)) == "plugin_"@ + decimal(n as nat),
        CmuxBackend.name_text() == "cmux"@,
        ZellijBackend.name_text() == "zellij"@,
        CmuxBackend.session_variable_text() == "CMUX_WORKSPACE_ID"@,
        ZellijBackend.session_variable_text() == "ZELLIJ_SESSION_NAME"@,
{
    reveal_strlit("plugin");
    reveal_strlit("plugin_");
    reveal_strlit("terminal");
    reveal_strlit("terminal_");
    reveal_strlit("_");
    assert("plugin"@ + "_"@ =~= "plugin_"@);
    assert("terminal"@ + "_"@ =~= "terminal_"@);
    zellij::pane_names_are_normal(true, n);
    zellij::pane_names_are_normal(false, n);
}

/// The contents of a surface and of a pane are those of their parts.
pub proof fn contents_are_those_of_the_parts(s: Surface, p: PaneInfo)
    ensures
        s@.id == s.id@,
        s@.title == s.title@,
        s@.surface_type == s.surface_type@,
        s@.is_focused == s.is_focused,
        p@.id == p.id@,
        p@.title == p.title@,
        p@.is_plugin == p.is_plugin,
        p@.is_focused == p.is_focused,
        p@.running == p.running,
{
}

} // verus!
