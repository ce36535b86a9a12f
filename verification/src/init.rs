//! Shell integration: scripts that record each command after it runs and
//! bind control-r to interactive search.

use vstd::prelude::*;

use crate::shell::Shell;

verus! {

/// The bash integration script. A command is recorded when the prompt
/// returns, if it reached the history: the newest history entry, number
/// included, differs from the last one recorded.
pub const BASH_INIT: &'static str = r#"__honu_last_entry=$(HISTTIMEFORMAT= builtin history 1)
__honu_precmd() {
  local code=$?
  local entry
  entry=$(HISTTIMEFORMAT= builtin history 1)
  if [[ -n $entry && $entry != "$__honu_last_entry" ]]; then
    __honu_last_entry=$entry
    local command
    command=$(printf '%s\n' "$entry" | sed '1s/^ *[0-9][0-9]*[* ] //')
    honu add --exit-code "$code" --shell bash --session "$$" -- "$command" >/dev/null 2>&1
  fi
  return $code
}
if [[ $(declare -p PROMPT_COMMAND 2>/dev/null) == "declare -a"* ]]; then
  PROMPT_COMMAND=(__honu_precmd "${PROMPT_COMMAND[@]}")
else
  PROMPT_COMMAND="__honu_precmd${PROMPT_COMMAND:+;$PROMPT_COMMAND}"
fi
__honu_search() {
  local selected
  selected=$(honu search "$READLINE_LINE" </dev/tty) || return
  READLINE_LINE=$selected
  READLINE_POINT=${#READLINE_LINE}
}
bind -x '"\C-r": __honu_search'
"#;

/// The fish integration script. Nothing is recorded in private mode.
pub const FISH_INIT: &'static str = r#"function __honu_preexec --on-event fish_preexec
  set -g __honu_command $argv[1]
end
function __honu_postexec --on-event fish_postexec
  set -l code $status
  set -q __honu_command; or return
  set -l command $__honu_command
  set -e __honu_command
  set -q fish_private_mode; and return
  honu add --exit-code $code --shell fish --session $fish_pid --duration-ns (math "$CMD_DURATION * 1000000") -- $command >/dev/null 2>&1
end
function __honu_search
  set -l selected (honu search (commandline) </dev/tty)
  and commandline -r -- $selected
  commandline -f repaint
end
bind \cr __honu_search
"#;

/// The zsh integration script. A command is recorded when the prompt
/// returns, unless it was kept out of the history by `HIST_IGNORE_SPACE` or
/// by another `zshaddhistory` hook.
pub const ZSH_INIT: &'static str = r#"zmodload zsh/datetime
__honu_addhistory() {
  unset __honu_command
  [[ -o hist_ignore_space && $1 == ' '* ]] && return 0
  local hook
  for hook in zshaddhistory $zshaddhistory_functions; do
    [[ $hook == __honu_addhistory ]] && continue
    (( $+functions[$hook] )) || continue
    "$hook" "$1"
    (( $? == 1 )) && return 0
  done
  __honu_command=${1%$'\n'}
  return 0
}
__honu_preexec() {
  __honu_start=$EPOCHREALTIME
}
__honu_precmd() {
  local code=$?
  [[ -n ${__honu_command+set} && -n ${__honu_start-} ]] || return
  local duration=$(( (EPOCHREALTIME - __honu_start) * 1000000000 ))
  honu add --exit-code $code --shell zsh --session $$ --duration-ns ${duration%.*} -- "$__honu_command" >/dev/null 2>&1
  unset __honu_command __honu_start
}
autoload -Uz add-zsh-hook
add-zsh-hook zshaddhistory __honu_addhistory
add-zsh-hook preexec __honu_preexec
add-zsh-hook precmd __honu_precmd
__honu_search() {
  local selected
  selected=$(honu search "$BUFFER" </dev/tty) && BUFFER=$selected && CURSOR=${#BUFFER}
  zle reset-prompt
}
zle -N __honu_search
bindkey '^r' __honu_search
"#;

/// The integration script of `shell`.
pub open spec fn init_of(shell: Shell) -> &'static str {
    match shell {
        Shell::Bash => BASH_INIT,
        Shell::Fish => FISH_INIT,
        Shell::Zsh => ZSH_INIT,
    }
}

impl Shell {
    /// The script that integrates honu with the shell.
    pub fn init(self) -> (r: &'static str)
        ensures
            r == init_of(self),
    {
        match self {
            Shell::Bash => BASH_INIT,
            Shell::Fish => FISH_INIT,
            Shell::Zsh => ZSH_INIT,
        }
    }
}

} // verus!
