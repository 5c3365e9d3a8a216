#!/bin/sh
# Runs a build command with the commit that `--version` is to print: the caller's
# TY_UNNECESSARY_COMMIT, else the commit that is checked out, else `unknown`.
set -eu

if [ -z "${TY_UNNECESSARY_COMMIT:-}" ]; then
    here=$(dirname -- "$0")
    TY_UNNECESSARY_COMMIT=$(git -C "$here" rev-parse HEAD 2>/dev/null || echo unknown)
fi
export TY_UNNECESSARY_COMMIT
exec "$@"
