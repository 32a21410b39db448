use vstd::prelude::*;

use crate::analyzer::analyzer::{
    model_board, translate_fen_for_model, AnalyzerController, LocalChat, LocalMessage,
    LocalMessageRole,
};
use crate::engine::fen::fen_of;
use crate::server::server::{is_best_move, pv_text};
use crate::text::push_str;

verus! {

/// The context sent to the assistant with a question: the position as FEN
/// and as a drawing, the engine's variations, its best move, the threat
/// found, and the question.
pub open spec fn context_text(
    fen: Seq<char>,
    pv_data: Seq<char>,
    best: Seq<char>,
    threat: Seq<char>,
    msg: Seq<char>,
) -> Seq<char> {
    "###Board Context###\nPlayer color: White\nBoard in FEN: "@ + fen + "\nBoard in viusal format\n "@
        + model_board(fen) + " \n###Engine evals##\n "@ + pv_data + " \nBest Move: "@ + best
        + "\n Main Threat: "@ + threat + "\n ###User Prompt###\n "@ + msg
}

/// The threat shown to the assistant: the one found, or `No Threat`.
pub open spec fn threat_text(t: Option<String>) -> Seq<char> {
    match t {
        Some(s) => s@,
        None => "No Threat"@,
    }
}

/// The context for the question `msg` about the analysis board
/// (`context_text`): without variations, `No engine line data ` and `No best
/// move provided by engine`; with them, their text and the first move of the
/// best one, or `No best move`.
pub fn board_context(controller: &AnalyzerController, msg: &str) -> (text: String)
    ensures
        match controller.last_pv {
            None => text@ == context_text(
                fen_of(controller.board),
                "No engine line data "@,
                "No best move provided by engine"@,
                threat_text(controller.last_threat),
                msg@,
            ),
            Some(p) => exists|best: Option<Seq<char>>|
                #[trigger] is_best_move(p, best) && text@ == context_text(
                    fen_of(controller.board),
                    pv_text(p),
                    match best {
                        Some(b) => b,
                        None => "No best move"@,
                    },
                    threat_text(controller.last_threat),
                    msg@,
                ),
        },
{
    let fen = controller.get_fen();
    let drawing = translate_fen_for_model(fen.as_str());
    let mut text = String::new();
    push_str(&mut text, "###Board Context###\nPlayer color: White\nBoard in FEN: ");
    push_str(&mut text, fen.as_str());
    push_str(&mut text, "\nBoard in viusal format\n ");
    push_str(&mut text, drawing.as_str());
    push_str(&mut text, " \n###Engine evals##\n ");
    match &controller.last_pv {
        Some(pv) => {
            let data = pv.to_string();
            let best = pv.best_first_move();
            push_str(&mut text, data.as_str());
            push_str(&mut text, " \nBest Move: ");
            match &best {
                Some(b) => push_str(&mut text, b.as_str()),
                None => push_str(&mut text, "No best move"),
            }
        },
        None => {
            push_str(&mut text, "No engine line data ");
            push_str(&mut text, " \nBest Move: ");
            push_str(&mut text, "No best move provided by engine");
        },
    }
    push_str(&mut text, "\n Main Threat: ");
    match &controller.last_threat {
        Some(t) => push_str(&mut text, t.as_str()),
        None => push_str(&mut text, "No Threat"),
    }
    push_str(&mut text, "\n ###User Prompt###\n ");
    push_str(&mut text, msg);
    proof {
        let fen_s = fen_of(controller.board);
        assert(text@ =~= match controller.last_pv {
            None => context_text(
                fen_s,
                "No engine line data "@,
                "No best move provided by engine"@,
                threat_text(controller.last_threat),
                msg@,
            ),
            Some(p) => text@,
        });
    }
    text
}

/// Records a question and the assistant's answer at ply `ply`: the user's
/// message, sent at `user_sent_at`, then the answer, sent at
/// `answer_sent_at`, are added to the chat.
pub fn record_exchange(
    chat: &mut LocalChat,
    msg: String,
    answer: String,
    ply: i32,
    user_sent_at: String,
    answer_sent_at: String,
)
    ensures
        final(chat).chat_id == old(chat).chat_id,
        final(chat).chat_messages@ == old(chat).chat_messages@ + seq![
            (LocalMessage { role: LocalMessageRole::User, content: msg, move_index: ply as isize, sent_at: user_sent_at }),
            (LocalMessage {
                role: LocalMessageRole::Assistent,
                content: answer,
                move_index: ply as isize,
                sent_at: answer_sent_at,
            }),
        ],
{
    chat.chat_messages.push(
        LocalMessage { role: LocalMessageRole::User, content: msg, move_index: ply as isize, sent_at: user_sent_at },
    );
    chat.chat_messages.push(
        LocalMessage {
            role: LocalMessageRole::Assistent,
            content: answer,
            move_index: ply as isize,
            sent_at: answer_sent_at,
        },
    );
}

} // verus!
