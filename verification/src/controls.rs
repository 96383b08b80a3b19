use vstd::prelude::*;

use crate::types::{ClickMode, NodeId, RouteMode, RoutingOptions};

verus! {

/// An input of the navigation screen, after the screen has decided which
/// button, key or map node it concerns.
#[derive(Debug, Clone, Copy, PartialEq, Eq, Structural)]
pub enum UiEvent {
    /// The "Fastest" button.
    ChooseFastest,
    /// The "Shortest" button.
    ChooseShortest,
    /// The "Click: Start" button or key 1.
    ClickSelectsStart,
    /// The "Click: Goal" button or key 2.
    ClickSelectsGoal,
    /// The "Avoid Tolls" button.
    ToggleTolls,
    /// The "Avoid Motorways" button.
    ToggleMotorways,
    /// The "Traffic" button.
    ToggleTraffic,
    /// The "Route Now" button or the Enter key.
    RouteNow,
    /// The N key: show or hide the nodes.
    ToggleNodes,
    /// A left click on the map near this node.
    PickNode(NodeId),
}

/// What the navigation screen remembers between frames, apart from the
/// graph, the route and the camera.
#[derive(Debug, Clone, Copy, PartialEq, Eq, Structural)]
pub struct NavigationState {
    pub options: RoutingOptions,
    pub click_mode: ClickMode,
    pub start_node: Option<NodeId>,
    pub goal_node: Option<NodeId>,
    pub draw_nodes: bool,
    pub is_loading: bool,
}

impl NavigationState {
    /// The state while the map is still loading.
    pub open spec fn initial() -> NavigationState {
        NavigationState {
            options: RoutingOptions::initial(),
            click_mode: ClickMode::SelectStart,
            start_node: None,
            goal_node: None,
            draw_nodes: false,
            is_loading: true,
        }
    }

    /// The state after `event`, and whether the route must be computed anew.
    /// While the map loads, every input is ignored.
    pub open spec fn after_event(self, event: UiEvent) -> (NavigationState, bool) {
        if self.is_loading {
            (self, false)
        } else {
            match event {
                UiEvent::ChooseFastest => (
                    NavigationState {
                        options: RoutingOptions { mode: RouteMode::Fastest, ..self.options },
                        ..self
                    },
                    true,
                ),
                UiEvent::ChooseShortest => (
                    NavigationState {
                        options: RoutingOptions { mode: RouteMode::Shortest, ..self.options },
                        ..self
                    },
                    true,
                ),
                UiEvent::ClickSelectsStart => (
                    NavigationState { click_mode: ClickMode::SelectStart, ..self },
                    false,
                ),
                UiEvent::ClickSelectsGoal => (
                    NavigationState { click_mode: ClickMode::SelectGoal, ..self },
                    false,
                ),
                UiEvent::ToggleTolls => (
                    NavigationState {
                        options: RoutingOptions {
                            avoid_tolls: !self.options.avoid_tolls,
                            ..self.options
                        },
                        ..self
                    },
                    true,
                ),
                UiEvent::ToggleMotorways => (
                    NavigationState {
                        options: RoutingOptions {
                            avoid_motorways: !self.options.avoid_motorways,
                            ..self.options
                        },
                        ..self
                    },
                    true,
                ),
                UiEvent::ToggleTraffic => (
                    NavigationState {
                        options: RoutingOptions {
                            traffic_enabled: !self.options.traffic_enabled,
                            ..self.options
                        },
                        ..self
                    },
                    true,
                ),
                UiEvent::RouteNow => (self, true),
                UiEvent::ToggleNodes => (NavigationState { draw_nodes: !self.draw_nodes, ..self }, false),
                UiEvent::PickNode(n) => match self.click_mode {
                    ClickMode::SelectStart => (NavigationState { start_node: Some(n), ..self }, true),
                    ClickMode::SelectGoal => (NavigationState { goal_node: Some(n), ..self }, true),
                },
            }
        }
    }

    /// The state once a graph of `node_count` nodes has loaded: the first
    /// node is the start and the last the goal, where the graph has them.
    pub open spec fn after_load(self, node_count: nat) -> NavigationState {
        NavigationState {
            is_loading: false,
            start_node: if node_count > 0 {
                Some(0)
            } else {
                None
            },
            goal_node: if node_count > 1 {
                Some((node_count - 1) as NodeId)
            } else {
                None
            },
            ..self
        }
    }

    /// The start and goal of the route to compute, when both are chosen and
    /// the graph has nodes.
    pub open spec fn spec_route_endpoints(self, node_count: nat) -> Option<(NodeId, NodeId)> {
        match (self.start_node, self.goal_node) {
            (Some(s), Some(g)) => if node_count == 0 {
                None
            } else {
                Some((s, g))
            },
            _ => None,
        }
    }

    /// The state while the map is still loading.
    pub fn new() -> (state: NavigationState)
        ensures
            state == NavigationState::initial(),
            state.is_loading,
            state.options.mode == RouteMode::Fastest,
            !state.options.avoid_tolls,
            !state.options.avoid_motorways,
            state.options.traffic_enabled,
            state.click_mode == ClickMode::SelectStart,
            state.start_node is None,
            state.goal_node is None,
            !state.draw_nodes,
    {
        NavigationState {
            options: RoutingOptions::default(),
            click_mode: ClickMode::SelectStart,
            start_node: None,
            goal_node: None,
            draw_nodes: false,
            is_loading: true,
        }
    }

    /// Applies `event` and returns whether the route must be computed anew.
    pub fn handle_event(&mut self, event: UiEvent) -> (recalculate: bool)
        ensures
            (*final(self), recalculate) == old(self).after_event(event),
    {
        if self.is_loading {
            return false;
        }
        match event {
            UiEvent::ChooseFastest => {
                self.options.mode = RouteMode::Fastest;
                true
            },
            UiEvent::ChooseShortest => {
                self.options.mode = RouteMode::Shortest;
                true
            },
            UiEvent::ClickSelectsStart => {
                self.click_mode = ClickMode::SelectStart;
                false
            },
            UiEvent::ClickSelectsGoal => {
                self.click_mode = ClickMode::SelectGoal;
                false
            },
            UiEvent::ToggleTolls => {
                self.options.avoid_tolls = !self.options.avoid_tolls;
                true
            },
            UiEvent::ToggleMotorways => {
                self.options.avoid_motorways = !self.options.avoid_motorways;
                true
            },
            UiEvent::ToggleTraffic => {
                self.options.traffic_enabled = !self.options.traffic_enabled;
                true
            },
            UiEvent::RouteNow => true,
            UiEvent::ToggleNodes => {
                self.draw_nodes = !self.draw_nodes;
                false
            },
            UiEvent::PickNode(n) => {
                match self.click_mode {
                    ClickMode::SelectStart => self.start_node = Some(n),
                    ClickMode::SelectGoal => self.goal_node = Some(n),
                }
                true
            },
        }
    }

    /// Records that a graph of `node_count` nodes has loaded and returns
    /// whether a route must be computed (both endpoints are chosen).
    pub fn finish_loading(&mut self, node_count: usize) -> (recalculate: bool)
        ensures
            *final(self) == old(self).after_load(node_count as nat),
            recalculate == (final(self).start_node is Some && final(self).goal_node is Some),
    {
        self.is_loading = false;
        self.start_node = if node_count > 0 {
            Some(0)
        } else {
            None
        };
        self.goal_node = if node_count > 1 {
            Some(node_count - 1)
        } else {
            None
        };
        self.start_node.is_some() && self.goal_node.is_some()
    }

    /// Records that loading the map failed.
    pub fn fail_loading(&mut self)
        ensures
            *final(self) == (NavigationState { is_loading: false, ..*old(self) }),
    {
        self.is_loading = false;
    }

    /// The start and goal of the route to compute on a graph of `node_count`
    /// nodes, or `None` when there is no route to compute.
    pub fn route_endpoints(&self, node_count: usize) -> (endpoints: Option<(NodeId, NodeId)>)
        ensures
            endpoints == self.spec_route_endpoints(node_count as nat),
    {
        match (self.start_node, self.goal_node) {
            (Some(s), Some(g)) => if node_count == 0 {
                None
            } else {
                Some((s, g))
            },
            _ => None,
        }
    }
}

/// What each input does once the map has loaded: the mode buttons set the
/// mode, each toggle flips its own setting and nothing else, the click-mode
/// inputs set the click mode, a picked node becomes the start or the goal as
/// the click mode says; everything an input does not name stays as it was.
/// A route is asked for by every input except the click-mode inputs and the
/// node display toggle.
pub proof fn lemma_event_effects(state: NavigationState, event: UiEvent)
    requires
        !state.is_loading,
    ensures
        ({
            let (next, recalculate) = state.after_event(event);
            &&& !next.is_loading
            &&& next.options.mode == (if event == UiEvent::ChooseFastest {
                RouteMode::Fastest
            } else if event == UiEvent::ChooseShortest {
                RouteMode::Shortest
            } else {
                state.options.mode
            })
            &&& next.options.avoid_tolls == (if event == UiEvent::ToggleTolls {
                !state.options.avoid_tolls
            } else {
                state.options.avoid_tolls
            })
            &&& next.options.avoid_motorways == (if event == UiEvent::ToggleMotorways {
                !state.options.avoid_motorways
            } else {
                state.options.avoid_motorways
            })
            &&& next.options.traffic_enabled == (if event == UiEvent::ToggleTraffic {
                !state.options.traffic_enabled
            } else {
                state.options.traffic_enabled
            })
            &&& next.draw_nodes == (if event == UiEvent::ToggleNodes {
                !state.draw_nodes
            } else {
                state.draw_nodes
            })
            &&& next.click_mode == (if event == UiEvent::ClickSelectsStart {
                ClickMode::SelectStart
            } else if event == UiEvent::ClickSelectsGoal {
                ClickMode::SelectGoal
            } else {
                state.click_mode
            })
            &&& next.start_node == (if event is PickNode && state.click_mode
                == ClickMode::SelectStart {
                Some(event->PickNode_0)
            } else {
                state.start_node
            })
            &&& next.goal_node == (if event is PickNode && state.click_mode
                == ClickMode::SelectGoal {
                Some(event->PickNode_0)
            } else {
                state.goal_node
            })
            &&& recalculate == !(event == UiEvent::ClickSelectsStart || event
                == UiEvent::ClickSelectsGoal || event == UiEvent::ToggleNodes)
        }),
{
}

/// Loading a graph ends loading, starts at the first node when there is
/// one, ends at the last when there are two or more, and keeps the
/// routing options, click mode and node display.
pub proof fn lemma_load_effects(state: NavigationState, node_count: nat)
    requires
        node_count <= usize::MAX,
    ensures
        ({
            let next = state.after_load(node_count);
            &&& !next.is_loading
            &&& next.start_node == (if node_count >= 1 {
                Some(0usize)
            } else {
                None
            })
            &&& next.goal_node == (if node_count >= 2 {
                Some((node_count - 1) as NodeId)
            } else {
                None
            })
            &&& next.options == state.options
            &&& next.click_mode == state.click_mode
            &&& next.draw_nodes == state.draw_nodes
        }),
{
}

/// A route is computed exactly when both endpoints are chosen and the graph
/// has nodes, and then between the chosen start and goal.
pub proof fn lemma_route_endpoints(state: NavigationState, node_count: nat)
    ensures
        state.spec_route_endpoints(node_count) is Some <==> (state.start_node is Some
            && state.goal_node is Some && node_count > 0),
        state.spec_route_endpoints(node_count) is Some ==> state.spec_route_endpoints(
            node_count,
        )->0 == (state.start_node->0, state.goal_node->0),
{
}

/// Each toggle undoes itself: two presses of the same toggle restore the state.
pub proof fn lemma_toggle_twice(state: NavigationState, event: UiEvent)
    requires
        event == UiEvent::ToggleTolls || event == UiEvent::ToggleMotorways || event
            == UiEvent::ToggleTraffic || event == UiEvent::ToggleNodes,
    ensures
        state.after_event(event).0.after_event(event).0 == state,
{
}

/// While the map loads, no input changes the state or asks for a route.
pub proof fn lemma_loading_ignores_input(state: NavigationState, event: UiEvent)
    requires
        state.is_loading,
    ensures
        state.after_event(event) == (state, false),
{
}

/// Picking a node sets the endpoint that the click mode selects, leaves
/// everything else as it was, and asks for a route.
pub proof fn lemma_pick_sets_endpoint(state: NavigationState, n: NodeId)
    requires
        !state.is_loading,
    ensures
        ({
            let (next, recalculate) = state.after_event(UiEvent::PickNode(n));
            &&& recalculate
            &&& next.options == state.options
            &&& next.click_mode == state.click_mode
            &&& state.click_mode == ClickMode::SelectStart ==> next.start_node == Some(n)
                && next.goal_node == state.goal_node
            &&& state.click_mode == ClickMode::SelectGoal ==> next.goal_node == Some(n)
                && next.start_node == state.start_node
        }),
{
}

/// Every input that changes a routing option asks for a route.
pub proof fn lemma_option_change_recalculates(state: NavigationState, event: UiEvent)
    requires
        state.after_event(event).0.options != state.options,
    ensures
        state.after_event(event).1,
{
}

/// A graph with two or more nodes loads with a route to compute from its first
/// to its last node.
pub proof fn lemma_load_routes_first_to_last(state: NavigationState, node_count: nat)
    requires
        node_count >= 2,
        node_count <= usize::MAX,
    ensures
        state.after_load(node_count).spec_route_endpoints(node_count) == Some(
            (0usize, (node_count - 1) as NodeId),
        ),
{
}

} // verus!
