//! The monitor: it holds the sockets and answers the client's requests.
//!
//! What touches a socket is not done here. The library says which socket
//! operation comes next, an [`Action`], and takes its outcome back.

mod histories;
mod laws;
mod pump;
mod relay;
mod rounds;
mod runs;
mod state;
mod steps;

pub use histories::{
    a_new_monitor_counts_from_one, after_event, after_events, an_event_numbers_its_socket,
    connection_brought, connections_are_numbered_in_order, connections_of, listener_brought,
    listeners_are_numbered_in_order, listeners_of, Event,
};
pub use laws::{
    accept_end_to_end, announcements_are_exact, bind_end_to_end, connect_end_to_end,
    failures_allocate_nothing, knowledge_stays_consistent, listeners_do_not_mix,
    one_answer_per_wait, replies_echo_the_request, requests_reach_the_monitor,
    unknown_listener_is_refused, waits_are_served_in_order,
};
pub use pump::{
    accept_taken, advanced, announced, answered, bind_taken, can_answer, can_refuse,
    connect_taken, due, read_then, request_effect, turn_taken, AcceptPoll, Action, Goal, Moment,
    Pump, Round, Stage,
};
pub use relay::{pipe_to_tcp, tcp_to_pipe, TcpRead, RELAY_CHUNK};
pub use rounds::{
    accepted_count, after_accepts, is_round, reply_contents, round_answers_who_waited_longest,
    round_serves_every_listener,
};
pub use runs::{
    accounts_for, answer_contents, fits_listener, goes_through, harmless, is_run, leads_to,
    names_work, no_call_fails, pump_answers_every_request, pump_does_not_fail, replies_to,
    requests_of, sendable, serve_one_takes_one_request, socket_replies, socket_requests, stage_of,
    waits_answered, waits_asked, Answer, RunStep,
};
pub use state::{
    io_err_code, reply_bytes, task_of, AcceptOutcome, BindOutcome, ConnectOutcome, Handled,
    Monitor, MonitorError, MonitorState, SocketTask, UNKNOWN_LISTENER_CODE,
};
pub use steps::{
    a_bind_is_answered, a_connect_is_answered, a_frame_is_handled_as_asked,
    a_request_names_its_endpoint, a_round_has_a_turn_for_everybody, a_run_begins_with_everybody,
    a_run_names_what_is_due, a_run_reads_between_rounds, a_run_takes_what_is_asked,
    a_turn_is_answered, action_asked, an_accept_is_answered, an_operation_stays_due, found_none,
    gave_up, in_new_round, only_sent, replies_on_the_wire, same_sockets, says_connection,
    says_number, says_ready_frame, sent, serves_front, taken_as_asked, takes, tells_front, unread,
    who_comes_later_waits_behind,
};
