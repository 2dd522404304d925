//! The shell integration snippets that `seasalt init` prints.

use vstd::prelude::*;
use crate::text::same_text;

verus! {

/// The bash snippet: recording hooks (ble.sh or bash-preexec) and, with
/// ble.sh, the inline suggestion source.
pub const BASH_INIT: &'static str = r#"# seasalt: fish-style autosuggestion and per-directory history (bash)
_seasalt_bin=${SEASALT_BIN:-seasalt}
_seasalt_session="$$-${RANDOM}"
_seasalt_last_id=

# Record the command about to run. Commands that start with whitespace, and
# everything while SEASALT_PRIVATE_MODE is set, stay out of the history.
function _seasalt_preexec {
  local cmd=$1
  _seasalt_last_id=
  [[ -n ${SEASALT_PRIVATE_MODE-} ]] && return 0
  [[ $cmd == [[:space:]]* ]] && return 0
  _seasalt_last_id=$("$_seasalt_bin" record --cwd "$PWD" --session "$_seasalt_session" -- "$cmd" 2>/dev/null)
  return 0
}

# Store the exit code of the command that just finished.
function _seasalt_precmd {
  local code=$?
  if [[ -n $_seasalt_last_id ]]; then
    "$_seasalt_bin" exit --last-id "$_seasalt_last_id" --code "$code" >/dev/null 2>&1
    _seasalt_last_id=
  fi
  return 0
}

if [[ -n ${BLE_VERSION-} ]]; then
  # Inline suggestion source. The binary enforces its own 200ms budget, so
  # the call stays synchronous.
  function ble/complete/auto-complete/source:seasalt {
    local cmd
    cmd=$("$_seasalt_bin" suggest --cwd "$PWD" -- "$_ble_edit_str" 2>/dev/null) || return 1
    [[ -n $cmd ]] || return 1
    ble/complete/auto-complete/enter h 0 "${cmd:${#_ble_edit_str}}" '' "$cmd"
  }

  # seasalt is the only history-based inline source.
  function _seasalt_set_sources {
    local src
    local -a sources=(seasalt)
    for src in "${_ble_complete_auto_source[@]}"; do
      case $src in
        seasalt | history | atuin-history) ;;
        *) sources+=("$src") ;;
      esac
    done
    _ble_complete_auto_source=("${sources[@]}")
  }
  _seasalt_set_sources

  blehook PREEXEC+=_seasalt_preexec
  blehook PRECMD+=_seasalt_precmd
elif [[ -n ${bash_preexec_imported-} || -n ${__bp_imported-} ]]; then
  preexec_functions+=(_seasalt_preexec)
  precmd_functions=(_seasalt_precmd "${precmd_functions[@]}")
  echo "seasalt: ble.sh is not loaded; history is recorded but no suggestions are shown" >&2
else
  echo "seasalt: neither ble.sh nor bash-preexec is loaded; history is not recorded" >&2
fi
"#;

/// The zsh snippet: recording hooks and a zsh-autosuggestions strategy.
pub const ZSH_INIT: &'static str = r#"# seasalt: fish-style autosuggestion and per-directory history (zsh)
typeset -g _seasalt_bin=${SEASALT_BIN:-seasalt}
typeset -g _seasalt_session="$$-${RANDOM}"
typeset -g _seasalt_last_id=

# Record the command about to run ($2 is the full command line). Commands
# that start with whitespace, and everything while SEASALT_PRIVATE_MODE is
# set, stay out of the history.
_seasalt_preexec() {
  emulate -L zsh
  _seasalt_last_id=
  [[ -n ${SEASALT_PRIVATE_MODE-} ]] && return 0
  [[ $2 == [[:space:]]* ]] && return 0
  _seasalt_last_id=$("$_seasalt_bin" record --cwd "$PWD" --session "$_seasalt_session" --shell zsh -- "$2" 2>/dev/null)
  return 0
}

# Store the exit code of the command that just finished. This hook must run
# first so that $? is still the command's status.
_seasalt_precmd() {
  local code=$?
  emulate -L zsh
  if [[ -n $_seasalt_last_id ]]; then
    "$_seasalt_bin" exit --last-id "$_seasalt_last_id" --code "$code" >/dev/null 2>&1
    _seasalt_last_id=
  fi
  return 0
}

autoload -Uz add-zsh-hook 2>/dev/null
typeset -ga preexec_functions precmd_functions
preexec_functions=(_seasalt_preexec ${preexec_functions:#_seasalt_preexec})
precmd_functions=(_seasalt_precmd ${precmd_functions:#_seasalt_precmd})

# zsh-autosuggestions strategy; the plugin runs it asynchronously.
_zsh_autosuggest_strategy_seasalt() {
  emulate -L zsh
  typeset -g suggestion
  suggestion=$("$_seasalt_bin" suggest --cwd "$PWD" -- "$1" 2>/dev/null) || suggestion=
}

# Put seasalt first and keep the strategies already configured (the plugin's
# default, history, when none are).
ZSH_AUTOSUGGEST_STRATEGY=(seasalt ${ZSH_AUTOSUGGEST_STRATEGY[@]:-history})
if ! (( $+functions[_zsh_autosuggest_start] )); then
  print -u2 "seasalt: zsh-autosuggestions is not loaded; history is recorded but no suggestions are shown"
fi
"#;

/// The bash integration snippet.
pub fn bash_init_script() -> (r: &'static str)
    ensures
        r == BASH_INIT,
{
    BASH_INIT
}

/// The zsh integration snippet.
pub fn zsh_init_script() -> (r: &'static str)
    ensures
        r == ZSH_INIT,
{
    ZSH_INIT
}

/// The snippet for the shell named `shell` (`bash` or `zsh`); `None` for a
/// shell that is not supported.
pub fn init_script(shell: &str) -> (r: Option<&'static str>)
    ensures
        shell@ == "bash"@ ==> r == Some(BASH_INIT),
        shell@ == "zsh"@ ==> r == Some(ZSH_INIT),
        shell@ != "bash"@ && shell@ != "zsh"@ ==> r is None,
{
    proof {
        reveal_strlit("bash");
        reveal_strlit("zsh");
        assert("bash"@.len() != "zsh"@.len());
    }
    if same_text(shell, "bash") {
        Some(bash_init_script())
    } else if same_text(shell, "zsh") {
        Some(zsh_init_script())
    } else {
        None
    }
}

} // verus!
